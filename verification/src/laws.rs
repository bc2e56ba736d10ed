//! The library's cross-cutting guarantees, proved once and for all.
//!
//! Each proof function here states a property that relates several
//! operations — traversal, batching, flushing — over the spec functions
//! their contracts are written in.

use crate::batch::{
    flush_count, flushes_of, lemma_flushes_for_drawable, lemma_sorted_unique, PassBuffer,
};
use crate::instance::Instance;
use crate::math::{affine_mul_of, AffineBits};
use crate::model::Primitive;
use crate::scene::{
    children_records, children_upto, lemma_node_records_split, lemma_prim_records_index,
    node_records, own_records, records_for, Node, NodeData,
};
use crate::submit::submitted_all;
use vstd::prelude::*;

verus! {

/// The transform a traversal carries after applying, left to right, each
/// transform of `path` to the starting transform.
pub open spec fn chain_compose(t0: AffineBits, path: Seq<AffineBits>) -> AffineBits
    decreases path.len(),
{
    if path.len() == 0 {
        t0
    } else {
        chain_compose(affine_mul_of(t0, path[0]), path.drop_first())
    }
}

/// Appending one transform to a chain composes it last.
proof fn lemma_chain_compose_push(t0: AffineBits, path: Seq<AffineBits>, x: AffineBits)
    ensures
        chain_compose(t0, path.push(x)) == affine_mul_of(chain_compose(t0, path), x),
    decreases path.len(),
{
    if path.len() == 0 {
        assert(path.push(x)[0] == x);
        assert(path.push(x).drop_first() =~= Seq::<AffineBits>::empty());
        assert(chain_compose(t0, path.push(x)) == chain_compose(
            affine_mul_of(t0, x),
            Seq::<AffineBits>::empty(),
        ));
        assert(chain_compose(affine_mul_of(t0, x), Seq::<AffineBits>::empty()) == affine_mul_of(
            t0,
            x,
        ));
    } else {
        assert(path.push(x)[0] == path[0]);
        assert(path.push(x).drop_first() =~= path.drop_first().push(x));
        lemma_chain_compose_push(affine_mul_of(t0, path[0]), path.drop_first(), x);
        assert(chain_compose(t0, path.push(x)) == chain_compose(
            affine_mul_of(t0, path[0]),
            path.drop_first().push(x),
        ));
    }
}

/// The traversal's stepwise transform composition matches a reference
/// sequential multiplication over the same path: composing each local
/// transform as it is met gives the same result as a left fold of the
/// whole path.
pub proof fn lemma_chain_matches_sequential(t0: AffineBits, path: Seq<AffineBits>)
    ensures
        chain_compose(t0, path) == path.fold_left(
            t0,
            (|acc: AffineBits, x: AffineBits| affine_mul_of(acc, x)),
        ),
    decreases path.len(),
{
    if path.len() > 0 {
        let prefix = path.drop_last();
        lemma_chain_matches_sequential(t0, prefix);
        assert(prefix.push(path.last()) =~= path);
        lemma_chain_compose_push(t0, prefix, path.last());
    }
}

/// Whether `p` names a chain of child indices descending from `n`.
pub open spec fn valid_path(n: Node, p: Seq<int>) -> bool
    decreases p.len(),
{
    p.len() == 0 || (0 <= p[0] < n.children@.len() && valid_path(
        n.children@[p[0]].inner,
        p.drop_first(),
    ))
}

/// The local transforms annotated along the path `p`.
pub open spec fn locals_along(n: Node, p: Seq<int>) -> Seq<AffineBits>
    decreases p.len(),
    when valid_path(n, p)
{
    if p.len() == 0 {
        Seq::empty()
    } else {
        seq![n.children@[p[0]].transform] + locals_along(n.children@[p[0]].inner, p.drop_first())
    }
}

/// The combined transform the traversal passes to the node `p` reaches,
/// following the same step it takes at every child: compose the running
/// transform with the child's local transform.
pub open spec fn transform_along(t0: AffineBits, n: Node, p: Seq<int>) -> AffineBits
    decreases p.len(),
    when valid_path(n, p)
{
    if p.len() == 0 {
        t0
    } else {
        transform_along(
            affine_mul_of(t0, n.children@[p[0]].transform),
            n.children@[p[0]].inner,
            p.drop_first(),
        )
    }
}

/// The transform at any node of the graph is exactly the sequential
/// multiplication of the local transforms along its path.
pub proof fn lemma_transform_along_is_sequential(t0: AffineBits, n: Node, p: Seq<int>)
    requires
        valid_path(n, p),
    ensures
        transform_along(t0, n, p) == chain_compose(t0, locals_along(n, p)),
    decreases p.len(),
{
    if p.len() > 0 {
        let child = n.children@[p[0]];
        lemma_transform_along_is_sequential(
            affine_mul_of(t0, child.transform),
            child.inner,
            p.drop_first(),
        );
        let locals = locals_along(n, p);
        assert(locals[0] == child.transform);
        assert(locals.drop_first() =~= locals_along(child.inner, p.drop_first()));
    }
}

/// The node a path leads to.
pub open spec fn subnode_at(n: Node, p: Seq<int>) -> Node
    decreases p.len(),
    when valid_path(n, p)
{
    if p.len() == 0 {
        n
    } else {
        subnode_at(n.children@[p[0]].inner, p.drop_first())
    }
}

/// Wherever a model sits in the graph, the traversal records each of its
/// primitives at the placement obtained from the sequential composition
/// of the local transforms along its path — no other transform, and no
/// other composition order.
pub proof fn lemma_record_carries_path_transform(
    inst: Instance,
    t0: AffineBits,
    n: Node,
    p: Seq<int>,
    j: int,
)
    requires
        valid_path(n, p),
        subnode_at(n, p).data matches Some(NodeData::Model(m)) && 0 <= j
            < m.primitives@.len(),
    ensures
        subnode_at(n, p).data matches Some(NodeData::Model(m)) ==> node_records(
            inst,
            t0,
            n,
        ).contains(
            (
                m.primitives@[j],
                inst.spec_transformed(chain_compose(t0, locals_along(n, p))),
            ),
        ),
    decreases p.len(),
{
    lemma_transform_along_is_sequential(t0, n, p);
    lemma_record_at_node(inst, t0, n, p, j);
}

/// The same statement over the traversal's own stepwise transform.
proof fn lemma_record_at_node(inst: Instance, t0: AffineBits, n: Node, p: Seq<int>, j: int)
    requires
        valid_path(n, p),
        subnode_at(n, p).data matches Some(NodeData::Model(m)) && 0 <= j
            < m.primitives@.len(),
    ensures
        subnode_at(n, p).data matches Some(NodeData::Model(m)) ==> node_records(
            inst,
            t0,
            n,
        ).contains((m.primitives@[j], inst.spec_transformed(transform_along(t0, n, p)))),
    decreases p.len(),
{
    let m = subnode_at(n, p).data->Some_0->Model_0;
    let rec = (m.primitives@[j], inst.spec_transformed(transform_along(t0, n, p)));
    if p.len() == 0 {
        let own = own_records(inst, t0, n.data);
        lemma_prim_records_index(m.primitives@, inst.spec_transformed(t0));
        assert(own[j] == rec);
        lemma_node_records_split(inst, t0, n, 0);
        assert(node_records(inst, t0, n) == own + children_upto(inst, t0, n, 0)
            + children_records(inst, t0, n, 0));
        assert(node_records(inst, t0, n)[j] == rec);
        assert(node_records(inst, t0, n).contains(rec));
    } else {
        let i = p[0];
        let child = n.children@[i];
        let ct = affine_mul_of(t0, child.transform);
        lemma_record_at_node(inst, ct, child.inner, p.drop_first(), j);
        let child_recs = node_records(inst, ct, child.inner);
        let k = choose|k: int| 0 <= k < child_recs.len() && child_recs[k] == rec;
        // the child's records sit inside the node's, after its own and its
        // earlier siblings'
        lemma_node_records_split(inst, t0, n, i);
        let before = own_records(inst, t0, n.data) + children_upto(inst, t0, n, i);
        assert(children_records(inst, t0, n, i) == child_recs + children_records(
            inst,
            t0,
            n,
            i + 1,
        ));
        assert(node_records(inst, t0, n) == before + (child_recs + children_records(
            inst,
            t0,
            n,
            i + 1,
        )));
        assert(node_records(inst, t0, n)[before.len() + k] == rec);
        assert(node_records(inst, t0, n).contains(rec));
    }
}

/// For any scene graph: every record the traversal pushed for a drawable
/// is flushed, in submission order, in exactly one flush — so the count
/// drawn for that drawable equals the count submitted, provided it did
/// not exceed capacity.
pub proof fn lemma_drawn_count_matches_submission(
    t0: PassBuffer,
    t1: PassBuffer,
    inst: Instance,
    t: AffineBits,
    n: Node,
    d: Primitive,
)
    requires
        t0.well_formed(),
        t1.well_formed(),
        submitted_all(t0, t1, node_records(inst, t, n)),
        t0.staged(d).len() == 0,
        records_for(node_records(inst, t, n), d).len() > 0,
    ensures
        t1.staged(d) == records_for(node_records(inst, t, n), d),
        flushes_of(t1.entries_view()).contains(
            (d, records_for(node_records(inst, t, n), d)),
        ),
        flush_count(flushes_of(t1.entries_view()), d) == 1,
{
    let rf = records_for(node_records(inst, t, n), d);
    assert(t1.staged(d) == t0.staged(d) + rf);
    assert(t0.staged(d) + rf =~= rf);
    lemma_sorted_unique(t1.entries_view());
    lemma_flushes_for_drawable(t1.entries_view(), d);
}

/// Two submissions referencing the same drawable identity from different
/// graph positions coalesce: their records land in one staging list, in
/// submission order, and are flushed in exactly one flush covering both —
/// one draw call with a combined instance range.
pub proof fn lemma_shared_identity_coalesces(
    t0: PassBuffer,
    t1: PassBuffer,
    t2: PassBuffer,
    inst1: Instance,
    tr1: AffineBits,
    n1: Node,
    inst2: Instance,
    tr2: AffineBits,
    n2: Node,
    d: Primitive,
)
    requires
        t0.well_formed(),
        t1.well_formed(),
        t2.well_formed(),
        submitted_all(t0, t1, node_records(inst1, tr1, n1)),
        submitted_all(t1, t2, node_records(inst2, tr2, n2)),
        t0.staged(d).len() == 0,
        records_for(node_records(inst1, tr1, n1), d).len() + records_for(
            node_records(inst2, tr2, n2),
            d,
        ).len() > 0,
    ensures
        t2.staged(d) == records_for(node_records(inst1, tr1, n1), d) + records_for(
            node_records(inst2, tr2, n2),
            d,
        ),
        flushes_of(t2.entries_view()).contains(
            (
                d,
                records_for(node_records(inst1, tr1, n1), d) + records_for(
                    node_records(inst2, tr2, n2),
                    d,
                ),
            ),
        ),
        flush_count(flushes_of(t2.entries_view()), d) == 1,
{
    let rf1 = records_for(node_records(inst1, tr1, n1), d);
    let rf2 = records_for(node_records(inst2, tr2, n2), d);
    assert(t1.staged(d) == t0.staged(d) + rf1);
    assert(t0.staged(d) + rf1 =~= rf1);
    assert(t2.staged(d) == t1.staged(d) + rf2);
    assert(t2.staged(d) == rf1 + rf2);
    lemma_sorted_unique(t2.entries_view());
    lemma_flushes_for_drawable(t2.entries_view(), d);
}

} // verus!
