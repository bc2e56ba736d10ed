//! Staging buffers and the per-frame batch table.
//!
//! Each drawable owns an `InstanceSyncBuffer`: a growable staging list of
//! pending instance records in front of a fixed-capacity GPU buffer. The
//! `PassBuffer` maps drawable identities to their buffers, ordered by key,
//! so that flushing walks drawables in a deterministic order. Entries are
//! created lazily the first time an identity is seen and are never removed.

use crate::instance::Instance;
use crate::model::Primitive;
use vstd::prelude::*;

verus! {

/// Capacity, in instance records, of each drawable's committed GPU buffer.
pub const MAX_INSTANCES: usize = 1024;

/// Returned by a push that would grow a staging list past the committed
/// buffer's capacity.
#[derive(Debug, Clone, Copy, PartialEq, Eq, Structural)]
pub struct BufferFull {}

/// Returned by a submission that would overflow the named drawable's batch.
#[derive(Debug, Clone, Copy, PartialEq, Eq, Structural)]
pub struct CapacityError {
    pub drawable: Primitive,
}

/// A staging list of pending instance records in front of a fixed-capacity
/// committed buffer.
///
/// The committed buffer and its binding live for the renderer's lifetime
/// and are reused across frames; only the staging list changes between
/// flushes.
pub struct InstanceSyncBuffer {
    staging: Vec<Instance>,
    capacity: usize,
}

impl InstanceSyncBuffer {
    /// The pending records, in submission order.
    pub closed spec fn staged(self) -> Seq<Instance> {
        self.staging@
    }

    /// The committed buffer's capacity in records.
    pub closed spec fn spec_capacity(self) -> usize {
        self.capacity
    }

    /// The staging list never outgrows the committed buffer.
    pub open spec fn well_formed(self) -> bool {
        self.staged().len() <= self.spec_capacity()
    }

    /// A buffer with an empty staging list and the given capacity.
    pub fn new(size: usize) -> (r: InstanceSyncBuffer)
        ensures
            r.staged() == Seq::<Instance>::empty(),
            r.spec_capacity() == size,
            r.well_formed(),
    {
        InstanceSyncBuffer { staging: Vec::new(), capacity: size }
    }

    /// A buffer whose staging list starts out holding `init`.
    pub fn new_init(size: usize, init: Vec<Instance>) -> (r: InstanceSyncBuffer)
        requires
            init@.len() <= size,
        ensures
            r.staged() == init@,
            r.spec_capacity() == size,
            r.well_formed(),
    {
        InstanceSyncBuffer { staging: init, capacity: size }
    }

    /// Appends one record to the staging list, unless that would exceed the
    /// committed buffer's capacity.
    pub fn push(&mut self, rec: Instance) -> (r: Result<(), BufferFull>)
        ensures
            final(self).spec_capacity() == old(self).spec_capacity(),
            r is Ok <==> old(self).staged().len() < old(self).spec_capacity(),
            r is Ok ==> final(self).staged() == old(self).staged().push(rec),
            r is Err ==> final(self).staged() == old(self).staged(),
    {
        if self.staging.len() < self.capacity {
            self.staging.push(rec);
            Ok(())
        } else {
            Err(BufferFull {})
        }
    }

    /// Swaps the staging list out for flushing.
    ///
    /// An empty staging list means there is nothing to do: the buffer is
    /// untouched and no records are returned. Otherwise the pending records
    /// are handed back, in submission order, to be written into the
    /// committed buffer's first slots, and a fresh empty staging list takes
    /// their place.
    pub fn finish(&mut self) -> (r: Option<Vec<Instance>>)
        ensures
            final(self).spec_capacity() == old(self).spec_capacity(),
            final(self).staged() == Seq::<Instance>::empty(),
            old(self).staged().len() == 0 <==> r is None,
            r matches Some(recs) ==> recs@ == old(self).staged(),
    {
        if self.staging.len() == 0 {
            None
        } else {
            let mut swapped: Vec<Instance> = Vec::new();
            core::mem::swap(&mut swapped, &mut self.staging);
            Some(swapped)
        }
    }
}

/// The records staged for `d` in an entry list: those of the first entry
/// keyed by `d`, or none if no entry is.
pub open spec fn staged_in(s: Seq<(Primitive, InstanceSyncBuffer)>, d: Primitive) -> Seq<Instance>
    decreases s.len(),
{
    if s.len() == 0 {
        Seq::empty()
    } else if s[0].0 == d {
        s[0].1.staged()
    } else {
        staged_in(s.drop_first(), d)
    }
}

/// No two entries share a drawable.
pub open spec fn unique_keys(s: Seq<(Primitive, InstanceSyncBuffer)>) -> bool {
    forall|i: int, j: int| 0 <= i < j < s.len() ==> (#[trigger] s[i]).0 != (#[trigger] s[j]).0
}

/// Entries are strictly ordered by drawable key.
pub open spec fn sorted_keys(s: Seq<(Primitive, InstanceSyncBuffer)>) -> bool {
    forall|i: int, j: int| 0 <= i < j < s.len() ==> (#[trigger] s[i]).0.key() < (
    #[trigger] s[j]).0.key()
}

/// Equal keys come from equal primitives: the key packs both identifiers.
pub proof fn lemma_key_injective(a: Primitive, b: Primitive)
    requires
        a.key() == b.key(),
    ensures
        a == b,
{
}

/// Strict ordering by key leaves no room for duplicates.
pub proof fn lemma_sorted_unique(s: Seq<(Primitive, InstanceSyncBuffer)>)
    requires
        sorted_keys(s),
    ensures
        unique_keys(s),
{
}

/// A drawable no entry is keyed by has nothing staged.
pub proof fn lemma_staged_absent(s: Seq<(Primitive, InstanceSyncBuffer)>, d: Primitive)
    requires
        forall|i: int| 0 <= i < s.len() ==> (#[trigger] s[i]).0 != d,
    ensures
        staged_in(s, d) == Seq::<Instance>::empty(),
    decreases s.len(),
{
    if s.len() > 0 {
        assert(s[0].0 != d);
        assert(forall|i: int|
            0 <= i < s.drop_first().len() ==> (#[trigger] s.drop_first()[i]).0 != d);
        lemma_staged_absent(s.drop_first(), d);
    }
}

/// With unique keys, the records staged for an entry's drawable are that
/// entry's staging list.
pub proof fn lemma_staged_at(s: Seq<(Primitive, InstanceSyncBuffer)>, k: int)
    requires
        unique_keys(s),
        0 <= k < s.len(),
    ensures
        staged_in(s, s[k].0) == s[k].1.staged(),
    decreases s.len(),
{
    if k == 0 {
    } else {
        assert(s[0].0 != s[k].0);
        assert(unique_keys(s.drop_first())) by {
            assert(forall|i: int, j: int|
                0 <= i < j < s.drop_first().len() ==> (#[trigger] s.drop_first()[i]).0 != (
                #[trigger] s.drop_first()[j]).0) by {
                assert(forall|i: int|
                    0 <= i < s.drop_first().len() ==> s.drop_first()[i] == s[i + 1]);
            }
        }
        lemma_staged_at(s.drop_first(), k - 1);
        assert(s.drop_first()[k - 1] == s[k]);
    }
}

/// Replacing the buffer of entry `k` changes only its drawable's staging.
pub proof fn lemma_staged_update(s: Seq<(Primitive, InstanceSyncBuffer)>, k: int, b: InstanceSyncBuffer)
    requires
        unique_keys(s),
        0 <= k < s.len(),
    ensures
        staged_in(s.update(k, (s[k].0, b)), s[k].0) == b.staged(),
        forall|d2: Primitive|
            d2 != s[k].0 ==> staged_in(s.update(k, (s[k].0, b)), d2) == staged_in(s, d2),
    decreases s.len(),
{
    let t = s.update(k, (s[k].0, b));
    if k == 0 {
        assert(t[0] == (s[0].0, b));
        assert(t.drop_first() =~= s.drop_first());
        assert forall|d2: Primitive| d2 != s[0].0 implies staged_in(t, d2) == staged_in(s, d2) by {
            assert(staged_in(t, d2) == staged_in(t.drop_first(), d2));
        }
    } else {
        assert(unique_keys(s.drop_first())) by {
            assert(forall|i: int|
                0 <= i < s.drop_first().len() ==> s.drop_first()[i] == s[i + 1]);
        }
        assert(t.drop_first() =~= s.drop_first().update(k - 1, (s[k].0, b)));
        assert(s.drop_first()[k - 1] == s[k]);
        lemma_staged_update(s.drop_first(), k - 1, b);
        assert(t[0] == s[0]);
        assert(s[0].0 != s[k].0);
        assert(staged_in(t, s[k].0) == staged_in(t.drop_first(), s[k].0));
        assert forall|d2: Primitive| d2 != s[k].0 implies staged_in(t, d2) == staged_in(s, d2) by {
            if d2 == s[0].0 {
                assert(staged_in(t, d2) == t[0].1.staged());
                assert(staged_in(s, d2) == s[0].1.staged());
            } else {
                assert(staged_in(t, d2) == staged_in(t.drop_first(), d2));
                assert(staged_in(s, d2) == staged_in(s.drop_first(), d2));
            }
        }
    }
}

/// Inserting an entry for a fresh drawable stages its records and leaves
/// every other drawable's staging unchanged.
pub proof fn lemma_staged_insert(s: Seq<(Primitive, InstanceSyncBuffer)>, k: int, d: Primitive, b: InstanceSyncBuffer)
    requires
        0 <= k <= s.len(),
        forall|i: int| 0 <= i < s.len() ==> (#[trigger] s[i]).0 != d,
    ensures
        staged_in(s.insert(k, (d, b)), d) == b.staged(),
        forall|d2: Primitive| d2 != d ==> staged_in(s.insert(k, (d, b)), d2) == staged_in(s, d2),
    decreases s.len(),
{
    let t = s.insert(k, (d, b));
    s.insert_ensures(k, (d, b));
    if k == 0 {
        assert(t[0] == (d, b));
        assert(t.drop_first() =~= s);
        assert forall|d2: Primitive| d2 != d implies staged_in(t, d2) == staged_in(s, d2) by {
            assert(staged_in(t, d2) == staged_in(t.drop_first(), d2));
        }
    } else {
        assert(t[0] == s[0]);
        assert(s[0].0 != d);
        assert(t.drop_first() =~= s.drop_first().insert(k - 1, (d, b)));
        assert(forall|i: int|
            0 <= i < s.drop_first().len() ==> s.drop_first()[i] == s[i + 1]);
        lemma_staged_insert(s.drop_first(), k - 1, d, b);
        assert(staged_in(t, d) == staged_in(t.drop_first(), d));
        assert forall|d2: Primitive| d2 != d implies staged_in(t, d2) == staged_in(s, d2) by {
            if d2 == s[0].0 {
                assert(staged_in(t, d2) == t[0].1.staged());
                assert(staged_in(s, d2) == s[0].1.staged());
            } else {
                assert(staged_in(t, d2) == staged_in(t.drop_first(), d2));
                assert(staged_in(s, d2) == staged_in(s.drop_first(), d2));
            }
        }
    }
}

/// Whatever is staged fits the committed buffer, for every drawable.
proof fn lemma_staged_in_le(s: Seq<(Primitive, InstanceSyncBuffer)>, d: Primitive)
    requires
        forall|i: int| 0 <= i < s.len() ==> (#[trigger] s[i]).1.well_formed(),
        forall|i: int| 0 <= i < s.len() ==> (#[trigger] s[i]).1.spec_capacity() == MAX_INSTANCES,
    ensures
        staged_in(s, d).len() <= MAX_INSTANCES,
    decreases s.len(),
{
    if s.len() > 0 && s[0].0 != d {
        assert(forall|i: int| 0 <= i < s.drop_first().len() ==> s.drop_first()[i] == s[i + 1]);
        lemma_staged_in_le(s.drop_first(), d);
    }
}

/// In a well-formed table no drawable's staging list exceeds the capacity.
pub proof fn lemma_staged_le_max(t: PassBuffer, d: Primitive)
    requires
        t.well_formed(),
    ensures
        t.staged(d).len() <= MAX_INSTANCES,
{
    lemma_staged_in_le(t.entries_view(), d);
}

/// One drawable's flushed records: what must be written into the first
/// slots of its committed buffer before this frame's draw call.
pub struct FlushItem {
    pub drawable: Primitive,
    pub records: Vec<Instance>,
}

/// The flushes a frame performs: one per drawable with pending records, in
/// key order; drawables with nothing staged contribute nothing.
pub open spec fn flushes_of(s: Seq<(Primitive, InstanceSyncBuffer)>) -> Seq<
    (Primitive, Seq<Instance>),
>
    decreases s.len(),
{
    if s.len() == 0 {
        Seq::empty()
    } else {
        (if s[0].1.staged().len() > 0 {
            seq![(s[0].0, s[0].1.staged())]
        } else {
            Seq::empty()
        }) + flushes_of(s.drop_first())
    }
}

/// Flushing distributes over concatenation of entry lists.
pub proof fn lemma_flushes_concat(
    a: Seq<(Primitive, InstanceSyncBuffer)>,
    b: Seq<(Primitive, InstanceSyncBuffer)>,
)
    ensures
        flushes_of(a + b) == flushes_of(a) + flushes_of(b),
    decreases a.len(),
{
    if a.len() == 0 {
        assert(a + b == b);
        assert(flushes_of(a) + flushes_of(b) =~= flushes_of(b));
    } else {
        assert((a + b).drop_first() == a.drop_first() + b);
        lemma_flushes_concat(a.drop_first(), b);
        assert((a + b)[0] == a[0]);
        if a[0].1.staged().len() > 0 {
            assert(seq![(a[0].0, a[0].1.staged())] + (flushes_of(a.drop_first()) + flushes_of(b))
                =~= (seq![(a[0].0, a[0].1.staged())] + flushes_of(a.drop_first())) + flushes_of(
                b,
            ));
        } else {
            assert(Seq::<(Primitive, Seq<Instance>)>::empty() + (flushes_of(a.drop_first())
                + flushes_of(b)) =~= (Seq::<(Primitive, Seq<Instance>)>::empty() + flushes_of(
                a.drop_first(),
            )) + flushes_of(b));
        }
    }
}

/// What one entry flushes.
pub proof fn lemma_flushes_singleton(e: (Primitive, InstanceSyncBuffer))
    ensures
        e.1.staged().len() > 0 ==> flushes_of(seq![e]) == seq![(e.0, e.1.staged())],
        e.1.staged().len() == 0 ==> flushes_of(seq![e]) == Seq::<(Primitive, Seq<Instance>)>::empty(),
{
    let s = seq![e];
    assert(s.len() == 1);
    assert(s[0] == e);
    assert(s.drop_first() =~= Seq::<(Primitive, InstanceSyncBuffer)>::empty());
    assert(flushes_of(s.drop_first()) == Seq::<(Primitive, Seq<Instance>)>::empty());
    if e.1.staged().len() > 0 {
        assert(flushes_of(s) == seq![(s[0].0, s[0].1.staged())] + flushes_of(s.drop_first()));
        assert(seq![(e.0, e.1.staged())] + Seq::<(Primitive, Seq<Instance>)>::empty()
            =~= seq![(e.0, e.1.staged())]);
    } else {
        assert(flushes_of(s) == Seq::<(Primitive, Seq<Instance>)>::empty() + flushes_of(
            s.drop_first(),
        ));
        assert(Seq::<(Primitive, Seq<Instance>)>::empty() + Seq::<
            (Primitive, Seq<Instance>),
        >::empty() =~= Seq::<(Primitive, Seq<Instance>)>::empty());
    }
}

/// Every flush a well-formed entry list yields is non-empty and fits the
/// committed buffer.
pub proof fn lemma_flushes_wf(s: Seq<(Primitive, InstanceSyncBuffer)>)
    requires
        forall|i: int| 0 <= i < s.len() ==> (#[trigger] s[i]).1.well_formed(),
        forall|i: int| 0 <= i < s.len() ==> (#[trigger] s[i]).1.spec_capacity() == MAX_INSTANCES,
    ensures
        forall|j: int|
            0 <= j < flushes_of(s).len() ==> 0 < (#[trigger] flushes_of(s)[j]).1.len()
                <= MAX_INSTANCES,
    decreases s.len(),
{
    if s.len() > 0 {
        assert(forall|i: int| 0 <= i < s.drop_first().len() ==> s.drop_first()[i] == s[i + 1]);
        lemma_flushes_wf(s.drop_first());
        assert(s[0].1.staged().len() <= s[0].1.spec_capacity());
        let rest = flushes_of(s.drop_first());
        if s[0].1.staged().len() > 0 {
            let head = seq![(s[0].0, s[0].1.staged())];
            assert(flushes_of(s) == head + rest);
            assert forall|j: int|
                0 <= j < flushes_of(s).len() implies 0 < (#[trigger] flushes_of(s)[j]).1.len()
                <= MAX_INSTANCES by {
                if j == 0 {
                    assert(flushes_of(s)[0] == head[0]);
                } else {
                    assert(flushes_of(s)[j] == rest[j - 1]);
                }
            }
        } else {
            assert(flushes_of(s) == Seq::<(Primitive, Seq<Instance>)>::empty() + rest);
            assert(Seq::<(Primitive, Seq<Instance>)>::empty() + rest =~= rest);
        }
    }
}

/// How many flushes of the list concern drawable `d`.
pub open spec fn flush_count(fs: Seq<(Primitive, Seq<Instance>)>, d: Primitive) -> int
    decreases fs.len(),
{
    if fs.len() == 0 {
        0
    } else {
        (if fs[0].0 == d {
            1int
        } else {
            0int
        }) + flush_count(fs.drop_first(), d)
    }
}

/// Counting flushes distributes over concatenation.
pub proof fn lemma_flush_count_concat(
    a: Seq<(Primitive, Seq<Instance>)>,
    b: Seq<(Primitive, Seq<Instance>)>,
    d: Primitive,
)
    ensures
        flush_count(a + b, d) == flush_count(a, d) + flush_count(b, d),
    decreases a.len(),
{
    if a.len() == 0 {
        assert(a + b == b);
    } else {
        assert((a + b).drop_first() == a.drop_first() + b);
        lemma_flush_count_concat(a.drop_first(), b, d);
    }
}

/// A drawable with pending records is flushed exactly once, and the flush
/// carries exactly its staged records; one with nothing pending is not
/// flushed at all.
pub proof fn lemma_flushes_for_drawable(s: Seq<(Primitive, InstanceSyncBuffer)>, d: Primitive)
    requires
        unique_keys(s),
    ensures
        staged_in(s, d).len() > 0 ==> flushes_of(s).contains((d, staged_in(s, d)))
            && flush_count(flushes_of(s), d) == 1,
        staged_in(s, d).len() == 0 ==> flush_count(flushes_of(s), d) == 0,
    decreases s.len(),
{
    if s.len() == 0 {
        return ;
    }
    let rest = s.drop_first();
    assert(forall|i: int| 0 <= i < rest.len() ==> rest[i] == s[i + 1]);
    assert(unique_keys(rest));
    lemma_flushes_for_drawable(rest, d);
    let head: Seq<(Primitive, Seq<Instance>)> = if s[0].1.staged().len() > 0 {
        seq![(s[0].0, s[0].1.staged())]
    } else {
        Seq::empty()
    };
    assert(flushes_of(s) == head + flushes_of(rest));
    lemma_flush_count_concat(head, flushes_of(rest), d);
    if s[0].1.staged().len() > 0 {
        assert(head == seq![(s[0].0, s[0].1.staged())]);
        assert(head.len() == 1);
        assert(head[0] == (s[0].0, s[0].1.staged()));
        assert(head.drop_first() =~= Seq::<(Primitive, Seq<Instance>)>::empty());
        assert(flush_count(head.drop_first(), d) == 0);
        assert(flush_count(head, d) == (if head[0].0 == d {
            1int
        } else {
            0int
        }) + flush_count(head.drop_first(), d));
    } else {
        assert(head.len() == 0);
        assert(flush_count(head, d) == 0);
    }
    if s[0].0 == d {
        // the head entry is the one for `d`; uniqueness keeps it out of the rest
        assert(forall|i: int| 0 <= i < rest.len() ==> (#[trigger] rest[i]).0 != d);
        lemma_staged_absent(rest, d);
        assert(staged_in(s, d) == s[0].1.staged());
        if s[0].1.staged().len() > 0 {
            assert((head + flushes_of(rest))[0] == (d, staged_in(s, d)));
            assert(flushes_of(s).contains((d, staged_in(s, d))));
        }
    } else {
        assert(staged_in(s, d) == staged_in(rest, d));
        if head.len() > 0 {
            assert(flush_count(head, d) == 0);
        }
        if staged_in(s, d).len() > 0 {
            let m = choose|m: int|
                0 <= m < flushes_of(rest).len() && flushes_of(rest)[m] == (d, staged_in(rest, d));
            assert((head + flushes_of(rest))[head.len() + m] == (d, staged_in(rest, d)));
            assert(flushes_of(s).contains((d, staged_in(s, d))));
        }
    }
}

/// Records staged for a drawable mean some entry is keyed by it.
pub proof fn lemma_staged_nonempty(s: Seq<(Primitive, InstanceSyncBuffer)>, d: Primitive)
    requires
        staged_in(s, d).len() > 0,
    ensures
        exists|i: int| 0 <= i < s.len() && (#[trigger] s[i]).0 == d,
    decreases s.len(),
{
    if s[0].0 == d {
        assert(s[0].0 == d);
    } else {
        lemma_staged_nonempty(s.drop_first(), d);
        let i = choose|i: int| 0 <= i < s.drop_first().len() && (#[trigger] s.drop_first()[i]).0 == d;
        assert(s[i + 1] == s.drop_first()[i]);
    }
}

/// Every flush is some drawable's own non-empty staging list: the flush
/// list invents nothing.
pub proof fn lemma_flushes_elements(s: Seq<(Primitive, InstanceSyncBuffer)>)
    requires
        unique_keys(s),
    ensures
        forall|j: int|
            0 <= j < flushes_of(s).len() ==> (#[trigger] flushes_of(s)[j]).1 == staged_in(
                s,
                flushes_of(s)[j].0,
            ) && flushes_of(s)[j].1.len() > 0,
    decreases s.len(),
{
    if s.len() == 0 {
        return ;
    }
    let rest = s.drop_first();
    assert(forall|i: int| 0 <= i < rest.len() ==> rest[i] == s[i + 1]);
    assert(unique_keys(rest));
    lemma_flushes_elements(rest);
    let head: Seq<(Primitive, Seq<Instance>)> = if s[0].1.staged().len() > 0 {
        seq![(s[0].0, s[0].1.staged())]
    } else {
        Seq::empty()
    };
    assert(flushes_of(s) == head + flushes_of(rest));
    assert forall|j: int|
        0 <= j < flushes_of(s).len() implies (#[trigger] flushes_of(s)[j]).1 == staged_in(
        s,
        flushes_of(s)[j].0,
    ) && flushes_of(s)[j].1.len() > 0 by {
        if j < head.len() {
            assert(flushes_of(s)[j] == head[0]);
            assert(staged_in(s, s[0].0) == s[0].1.staged());
        } else {
            let e = flushes_of(rest)[j - head.len()];
            assert(flushes_of(s)[j] == e);
            assert(e.1 == staged_in(rest, e.0) && e.1.len() > 0);
            lemma_staged_nonempty(rest, e.0);
            let i = choose|i: int| 0 <= i < rest.len() && (#[trigger] rest[i]).0 == e.0;
            assert(rest[i] == s[i + 1]);
            assert(s[0].0 != e.0);
            assert(staged_in(s, e.0) == staged_in(rest, e.0));
        }
    }
}

/// When every buffer's staging list is empty, nothing is staged anywhere.
proof fn lemma_staged_in_all_empty(s: Seq<(Primitive, InstanceSyncBuffer)>, d: Primitive)
    requires
        forall|i: int| 0 <= i < s.len() ==> (#[trigger] s[i]).1.staged().len() == 0,
    ensures
        staged_in(s, d) == Seq::<Instance>::empty(),
    decreases s.len(),
{
    if s.len() > 0 {
        assert(s[0].1.staged().len() == 0);
        assert(s[0].1.staged() =~= Seq::<Instance>::empty());
        assert(forall|i: int| 0 <= i < s.drop_first().len() ==> s.drop_first()[i] == s[i + 1]);
        lemma_staged_in_all_empty(s.drop_first(), d);
    }
}

/// The ordered batch table: drawable identity to its buffer, created once
/// per renderer, entries never removed.
pub struct PassBuffer {
    entries: Vec<(Primitive, InstanceSyncBuffer)>,
}

impl PassBuffer {
    /// The entry list, in key order.
    pub closed spec fn entries_view(self) -> Seq<(Primitive, InstanceSyncBuffer)> {
        self.entries@
    }

    /// The drawables with an entry, in key order.
    pub open spec fn order(self) -> Seq<Primitive> {
        self.entries_view().map_values(|e: (Primitive, InstanceSyncBuffer)| e.0)
    }

    /// Entries are strictly key-ordered and every buffer is well formed
    /// with the standard capacity.
    pub open spec fn well_formed(self) -> bool {
        &&& sorted_keys(self.entries_view())
        &&& forall|i: int|
            0 <= i < self.entries_view().len() ==> (#[trigger] self.entries_view()[i]).1.well_formed()
        &&& forall|i: int|
            0 <= i < self.entries_view().len() ==> (#[trigger] self.entries_view()[i]).1.spec_capacity()
                == MAX_INSTANCES
    }

    /// The records currently staged for a drawable; empty if it has never
    /// been seen.
    pub open spec fn staged(self, d: Primitive) -> Seq<Instance> {
        staged_in(self.entries_view(), d)
    }

    /// An empty table.
    pub fn new() -> (r: PassBuffer)
        ensures
            r.well_formed(),
            r.entries_view().len() == 0,
            forall|d: Primitive| r.staged(d) == Seq::<Instance>::empty(),
    {
        PassBuffer { entries: Vec::new() }
    }

    /// The index of the first entry whose key is not below `d`'s.
    fn find_slot(entries: &Vec<(Primitive, InstanceSyncBuffer)>, d: &Primitive) -> (i: usize)
        ensures
            i <= entries@.len(),
            forall|k: int| 0 <= k < i ==> (#[trigger] entries@[k]).0.key() < d.key(),
            i < entries@.len() ==> entries@[i as int].0.key() >= d.key(),
    {
        let mut i: usize = 0;
        while i < entries.len()
            invariant
                i <= entries@.len(),
                forall|k: int| 0 <= k < i ==> (#[trigger] entries@[k]).0.key() < d.key(),
            decreases entries@.len() - i,
        {
            if !entries[i].0.lt(d) {
                return i;
            }
            i += 1;
        }
        i
    }

    /// Stages one record for a drawable, creating its buffer on first
    /// sight; fails exactly when the drawable's batch is already full.
    #[verifier::rlimit(30)]
    pub fn submit_one(&mut self, d: Primitive, rec: Instance) -> (r: Result<(), CapacityError>)
        requires
            old(self).well_formed(),
        ensures
            final(self).well_formed(),
            r is Ok <==> old(self).staged(d).len() < MAX_INSTANCES,
            r is Ok ==> final(self).staged(d) == old(self).staged(d).push(rec),
            r is Err ==> final(self).staged(d) == old(self).staged(d),
            forall|d2: Primitive| d2 != d ==> final(self).staged(d2) == old(self).staged(d2),
            r matches Err(e) ==> e == (CapacityError { drawable: d }),
    {
        proof {
            lemma_sorted_unique(self.entries@);
        }
        let i = Self::find_slot(&self.entries, &d);
        if i < self.entries.len() && self.entries[i].0 == d {
            let ghost s0 = self.entries@;
            proof {
                lemma_staged_at(s0, i as int);
            }
            let entry = &mut self.entries[i];
            let res = entry.1.push(rec);
            proof {
                let v = self.entries@[i as int];
                assert(v.0 == d);
                assert(self.entries@ =~= s0.update(i as int, (s0[i as int].0, v.1)));
                lemma_staged_update(s0, i as int, v.1);
                assert(sorted_keys(self.entries@)) by {
                    assert(forall|a: int|
                        0 <= a < self.entries@.len() ==> (#[trigger] self.entries@[a]).0 == s0[
                        a].0);
                }
            }
            match res {
                Ok(u) => Ok(u),
                Err(_) => Err(CapacityError { drawable: d }),
            }
        } else {
            let ghost s0 = self.entries@;
            proof {
                assert forall|k: int| 0 <= k < s0.len() implies (#[trigger] s0[k]).0 != d by {
                    if k < i {
                        assert(s0[k].0.key() < d.key());
                    } else {
                        assert(s0[i as int].0.key() >= d.key());
                        if s0[i as int].0.key() == d.key() {
                            lemma_key_injective(s0[i as int].0, d);
                        }
                        if k > i {
                            assert(s0[k].0.key() > s0[i as int].0.key());
                        }
                    }
                }
                lemma_staged_absent(s0, d);
            }
            let mut init: Vec<Instance> = Vec::new();
            init.push(rec);
            let buf = InstanceSyncBuffer::new_init(MAX_INSTANCES, init);
            self.entries.insert(i, (d, buf));
            proof {
                lemma_staged_insert(s0, i as int, d, buf);
                s0.insert_ensures(i as int, (d, buf));
                assert(sorted_keys(self.entries@)) by {
                    assert forall|a: int, b: int|
                        0 <= a < b < self.entries@.len() implies (#[trigger] self.entries@[a]).0.key()
                        < (#[trigger] self.entries@[b]).0.key() by {
                        if b < i {
                        } else if a == i {
                            assert(self.entries@[b] == s0[b - 1]);
                        } else if b == i {
                            assert(self.entries@[a] == s0[a]);
                        } else if a < i && b > i {
                            assert(self.entries@[a] == s0[a]);
                            assert(self.entries@[b] == s0[b - 1]);
                        } else {
                            assert(self.entries@[a] == s0[a - 1]);
                            assert(self.entries@[b] == s0[b - 1]);
                        }
                    }
                }
            }
            Ok(())
        }
    }

    /// Flushes every buffer: swaps out each non-empty staging list, in key
    /// order, and returns what must be written into the committed buffers
    /// before drawing. Buffers with nothing staged are not touched and
    /// contribute nothing. Afterwards every staging list is empty; the
    /// entries themselves, and their order, remain.
    pub fn flush_all(&mut self) -> (r: Vec<FlushItem>)
        requires
            old(self).well_formed(),
        ensures
            final(self).well_formed(),
            r@.len() == flushes_of(old(self).entries_view()).len(),
            forall|j: int|
                0 <= j < r@.len() ==> (#[trigger] r@[j]).drawable == flushes_of(
                    old(self).entries_view(),
                )[j].0 && r@[j].records@ == flushes_of(old(self).entries_view())[j].1,
            final(self).entries_view().len() == old(self).entries_view().len(),
            forall|i: int|
                0 <= i < final(self).entries_view().len() ==> (#[trigger] final(self).entries_view()[i]).0
                    == old(self).entries_view()[i].0,
            forall|d: Primitive| final(self).staged(d) == Seq::<Instance>::empty(),
    {
        let ghost s0 = self.entries@;
        let mut out: Vec<FlushItem> = Vec::new();
        let mut i: usize = 0;
        while i < self.entries.len()
            invariant
                0 <= i <= self.entries@.len(),
                self.entries@.len() == s0.len(),
                sorted_keys(s0),
                forall|j: int| 0 <= j < s0.len() ==> (#[trigger] s0[j]).1.spec_capacity()
                    == MAX_INSTANCES,
                forall|j: int| 0 <= j < s0.len() ==> (#[trigger] self.entries@[j]).0 == s0[j].0,
                forall|j: int|
                    0 <= j < s0.len() ==> (#[trigger] self.entries@[j]).1.spec_capacity() == s0[
                    j].1.spec_capacity(),
                forall|j: int|
                    0 <= j < i ==> (#[trigger] self.entries@[j]).1.staged().len() == 0,
                forall|j: int| i <= j < s0.len() ==> (#[trigger] self.entries@[j]).1 == s0[j].1,
                out@.len() == flushes_of(s0.take(i as int)).len(),
                forall|j: int|
                    0 <= j < out@.len() ==> (#[trigger] out@[j]).drawable == flushes_of(
                        s0.take(i as int),
                    )[j].0 && out@[j].records@ == flushes_of(s0.take(i as int))[j].1,
            decreases s0.len() - i,
        {
            let ghost pre = self.entries@;
            let entry = &mut self.entries[i];
            let drawable = entry.0;
            let res = entry.1.finish();
            proof {
                assert(self.entries@ =~= pre.update(
                    i as int,
                    (pre[i as int].0, self.entries@[i as int].1),
                ));
                assert(s0.take(i as int + 1) =~= s0.take(i as int) + seq![s0[i as int]]);
                lemma_flushes_concat(s0.take(i as int), seq![s0[i as int]]);
                lemma_flushes_singleton(s0[i as int]);
                if s0[i as int].1.staged().len() > 0 {
                    assert(flushes_of(s0.take(i as int + 1)) == flushes_of(s0.take(i as int))
                        + seq![(s0[i as int].0, s0[i as int].1.staged())]);
                } else {
                    assert(flushes_of(s0.take(i as int)) + Seq::<
                        (Primitive, Seq<Instance>),
                    >::empty() =~= flushes_of(s0.take(i as int)));
                }
            }
            if let Some(recs) = res {
                out.push(FlushItem { drawable, records: recs });
            }
            i += 1;
        }
        proof {
            assert(s0.take(s0.len() as int) =~= s0);
            assert forall|d: Primitive|
                self.staged(d) == Seq::<Instance>::empty() by {
                lemma_staged_in_all_empty(self.entries@, d);
            }
            assert(sorted_keys(self.entries@)) by {
                assert(forall|a: int|
                    0 <= a < self.entries@.len() ==> (#[trigger] self.entries@[a]).0 == s0[a].0);
            }
        }
        out
    }
}

} // verus!
