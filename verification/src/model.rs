//! Drawable identity and models.
//!
//! A primitive pairs one mesh with one material; the pair of their assigned
//! identifiers is the unit of batching. Equality and ordering go by the
//! identifiers alone, never by buffer contents, so the batch table's key is
//! stable and cheap to compare.

use crate::identify::{Id, WithId};
use vstd::prelude::*;

verus! {

/// One mesh paired with one material, named by their identifiers.
///
/// Two primitives with the same identifiers are the same drawable for
/// batching purposes, wherever in the scene they occur.
#[derive(Debug, Clone, Copy, PartialEq, Eq, Structural, Hash)]
pub struct Primitive {
    pub mesh: Id,
    pub material: Id,
}

impl Primitive {
    /// A single integer that orders primitives by (mesh, material).
    pub open spec fn key(self) -> int {
        self.mesh.0 * 0x10000 + self.material.0
    }

    /// Names the drawable of a tagged mesh and a tagged material.
    pub fn new<M, T>(mesh: &WithId<M>, material: &WithId<T>) -> (r: Primitive)
        ensures
            r.mesh == mesh.spec_id(),
            r.material == material.spec_id(),
    {
        Primitive { mesh: mesh.id(), material: material.id() }
    }

    /// Compares primitives by their key, without building the key.
    pub fn lt(&self, other: &Primitive) -> (r: bool)
        ensures
            r == (self.key() < other.key()),
    {
        self.mesh.0 < other.mesh.0 || (self.mesh.0 == other.mesh.0 && self.material.0
            < other.material.0)
    }
}

/// A model: a non-empty list of primitives drawn together.
#[derive(Debug, Clone)]
pub struct Model {
    pub primitives: Vec<Primitive>,
}

impl Model {
    /// A model must hold at least one primitive.
    pub open spec fn well_formed(self) -> bool {
        self.primitives@.len() > 0
    }

    /// Builds a model from its primitives; a model cannot be empty.
    pub fn new(primitives: Vec<Primitive>) -> (r: Option<Model>)
        ensures
            primitives@.len() > 0 ==> r == Some(Model { primitives }),
            primitives@.len() == 0 ==> r is None,
    {
        if primitives.len() > 0 {
            Some(Model { primitives })
        } else {
            None
        }
    }
}

} // verus!
