//! Process-wide identifiers for GPU-resident resources.
//!
//! Mesh and material data are registered once at load time and tagged with a
//! small identifier drawn from a 16-bit counter. Equality and ordering of
//! tagged values go by the identifier alone, never by the tagged contents.

use std::rc::Rc;
use vstd::prelude::*;

verus! {

/// A small identifier assigned at registration time.
///
/// Identifiers are drawn from a 16-bit counter that wraps at 65536; beyond
/// that many registrations, identifiers repeat.
#[derive(Debug, Clone, Copy, PartialEq, Eq, Structural, Hash)]
pub struct Id(pub u16);

/// The counter that identifiers are drawn from.
///
/// A renderer keeps one counter for its whole lifetime and threads it
/// through every loader, so identifiers are process-wide.
pub struct IdCounter {
    next: u16,
}

impl IdCounter {
    /// The identifier the next call to `Id::generate` will return.
    pub closed spec fn next_id(self) -> u16 {
        self.next
    }

    pub fn new() -> (c: IdCounter)
        ensures
            c.next_id() == 0,
    {
        IdCounter { next: 0 }
    }
}

impl Id {
    /// Draws the next identifier, wrapping at 65536.
    pub fn generate(counter: &mut IdCounter) -> (id: Id)
        ensures
            id.0 == old(counter).next_id(),
            final(counter).next_id() == if old(counter).next_id() == 0xFFFF {
                0u16
            } else {
                (old(counter).next_id() + 1) as u16
            },
    {
        let id = Id(counter.next);
        counter.next = if counter.next == 0xFFFF {
            0
        } else {
            counter.next + 1
        };
        id
    }
}

/// A reference-counted value tagged with an `Id`.
///
/// Comparisons consider only the identifier, so tagged values are cheap,
/// stable map keys no matter what they carry.
pub struct WithId<T> {
    inner: Rc<T>,
    id: Id,
}

impl<T> WithId<T> {
    /// The identifier this value was registered under.
    pub closed spec fn spec_id(self) -> Id {
        self.id
    }

    /// The registered value itself.
    pub closed spec fn spec_inner(self) -> T {
        *self.inner
    }

    /// Tags a value with a freshly generated identifier.
    pub fn register(inner: T, counter: &mut IdCounter) -> (r: WithId<T>)
        ensures
            r.spec_id().0 == old(counter).next_id(),
            r.spec_inner() == inner,
            final(counter).next_id() == if old(counter).next_id() == 0xFFFF {
                0u16
            } else {
                (old(counter).next_id() + 1) as u16
            },
    {
        WithId { inner: Rc::new(inner), id: Id::generate(counter) }
    }

    /// Reads the identifier.
    pub fn id(&self) -> (id: Id)
        ensures
            id == self.spec_id(),
    {
        self.id
    }

    /// Borrows the registered value.
    pub fn as_ref(&self) -> (r: &T)
        ensures
            *r == self.spec_inner(),
    {
        &self.inner
    }
}

impl<T> PartialEq for WithId<T> {
    /// Two tagged values are equal exactly when their identifiers are:
    /// the registered contents are never compared.
    fn eq(&self, other: &Self) -> (r: bool) {
        self.id.0 == other.id.0
    }
}

impl<T> vstd::std_specs::cmp::PartialEqSpecImpl for WithId<T> {
    open spec fn obeys_eq_spec() -> bool {
        true
    }

    open spec fn eq_spec(&self, other: &Self) -> bool {
        self.spec_id() == other.spec_id()
    }
}

impl<T> Clone for WithId<T> {
    /// Clones the tag and shares the registered value.
    fn clone(&self) -> (r: Self)
        ensures
            r.spec_id() == self.spec_id(),
            r.spec_inner() == self.spec_inner(),
    {
        WithId { inner: Rc::clone(&self.inner), id: self.id }
    }
}

} // verus!
