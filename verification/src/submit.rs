//! Submitting scene content into the batch table.
//!
//! The traversal walks a scene depth-first, composes transforms on the way
//! down, and stages one instance record per primitive of every model it
//! meets. The contracts tie the table's staging lists, drawable by
//! drawable, to the record list `node_records` says the traversal produces:
//! on success every record was appended in submission order; on overflow a
//! prefix was appended and the error names a drawable whose batch cannot
//! take its records.

use crate::batch::{lemma_staged_le_max, CapacityError, PassBuffer, MAX_INSTANCES};
use crate::instance::Instance;
use crate::math::AffineBits;
use crate::model::Primitive;
use crate::scene::{
    children_records, children_upto, lemma_node_records_split, lemma_prim_records_index,
    lemma_records_for_concat, lemma_records_for_singleton, node_records, own_records,
    prim_records, records_for, Node, NodeData, Scene, WithTransform,
};
use vstd::prelude::*;

verus! {

/// Every record of `rs` was appended, in order, to its drawable's staging
/// list, taking the table from `t0` to `t1`.
pub open spec fn submitted_all(t0: PassBuffer, t1: PassBuffer, rs: Seq<(Primitive, Instance)>) -> bool {
    forall|d: Primitive| t1.staged(d) == t0.staged(d) + records_for(rs, d)
}

/// No drawable's staging list would outgrow its committed buffer if every
/// record of `rs` were appended to the table.
pub open spec fn room_for(t: PassBuffer, rs: Seq<(Primitive, Instance)>) -> bool {
    forall|d: Primitive|
        t.staged(d).len() + #[trigger] records_for(rs, d).len() <= MAX_INSTANCES
}

/// Appending `rs`'s records for `d` would overflow `d`'s batch.
pub open spec fn overflow_at(t: PassBuffer, rs: Seq<(Primitive, Instance)>, d: Primitive) -> bool {
    t.staged(d).len() + records_for(rs, d).len() > MAX_INSTANCES
}

/// What every submission entry point promises: the table stays well
/// formed; it succeeds exactly when there is room for all records; on
/// success all records are staged in order; on overflow some prefix is
/// staged and the error names an overflowing drawable.
pub open spec fn submission_outcome(
    t0: PassBuffer,
    t1: PassBuffer,
    rs: Seq<(Primitive, Instance)>,
    r: Result<(), CapacityError>,
) -> bool {
    &&& t1.well_formed()
    &&& (r is Ok <==> room_for(t0, rs))
    &&& (r is Ok ==> submitted_all(t0, t1, rs))
    &&& (r matches Err(e) ==> overflow_at(t0, rs, e.drawable))
    &&& (r is Err ==> exists|k: int|
        0 <= k <= rs.len() && submitted_all(t0, t1, #[trigger] rs.take(k)))
}

/// Submitting nothing changes nothing.
pub proof fn lemma_submitted_all_refl(t: PassBuffer)
    ensures
        submitted_all(t, t, Seq::<(Primitive, Instance)>::empty()),
{
    assert forall|d: Primitive|
        t.staged(d) == t.staged(d) + records_for(
            Seq::<(Primitive, Instance)>::empty(),
            d,
        ) by {
        assert(t.staged(d) + records_for(Seq::<(Primitive, Instance)>::empty(), d) =~= t.staged(
            d,
        ));
    }
}

/// Submissions compose: records of `a` then records of `b` are the records
/// of `a + b`.
pub proof fn lemma_submitted_all_compose(
    t0: PassBuffer,
    t1: PassBuffer,
    t2: PassBuffer,
    a: Seq<(Primitive, Instance)>,
    b: Seq<(Primitive, Instance)>,
)
    requires
        submitted_all(t0, t1, a),
        submitted_all(t1, t2, b),
    ensures
        submitted_all(t0, t2, a + b),
{
    assert forall|d: Primitive| t2.staged(d) == t0.staged(d) + records_for(a + b, d) by {
        lemma_records_for_concat(a, b, d);
        assert(t0.staged(d) + (records_for(a, d) + records_for(b, d)) =~= (t0.staged(d)
            + records_for(a, d)) + records_for(b, d));
    }
}

/// An overflow among later records is an overflow of the whole, wherever
/// the table stood when it was found.
pub proof fn lemma_overflow_lift(
    t0: PassBuffer,
    t1: PassBuffer,
    a: Seq<(Primitive, Instance)>,
    b: Seq<(Primitive, Instance)>,
    d: Primitive,
)
    requires
        submitted_all(t0, t1, a),
        overflow_at(t1, b, d),
    ensures
        overflow_at(t0, a + b, d),
{
    lemma_records_for_concat(a, b, d);
}

/// An overflow within a prefix is an overflow of the whole.
pub proof fn lemma_overflow_extend(
    t: PassBuffer,
    a: Seq<(Primitive, Instance)>,
    b: Seq<(Primitive, Instance)>,
    d: Primitive,
)
    requires
        overflow_at(t, a, d),
    ensures
        overflow_at(t, a + b, d),
{
    lemma_records_for_concat(a, b, d);
}

/// Taking up to `k` records of the middle part of a three-way split.
proof fn lemma_take_of_concat(
    a: Seq<(Primitive, Instance)>,
    b: Seq<(Primitive, Instance)>,
    c: Seq<(Primitive, Instance)>,
    k: int,
)
    requires
        0 <= k <= b.len(),
    ensures
        (a + b + c).take(a.len() + k) == a + b.take(k),
{
    assert((a + b + c).take(a.len() as int + k) =~= a + b.take(k));
}

/// Stages one record per primitive, all carrying `inst`, in order.
pub(crate) fn submit_primitives(
    table: &mut PassBuffer,
    prims: &Vec<Primitive>,
    inst: Instance,
) -> (r: Result<(), CapacityError>)
    requires
        old(table).well_formed(),
    ensures
        submission_outcome(*old(table), *final(table), prim_records(prims@, inst), r),
{
    let ghost t0 = *old(table);
    let ghost full = prim_records(prims@, inst);
    proof {
        lemma_prim_records_index(prims@, inst);
    }
    let mut i: usize = 0;
    while i < prims.len()
        invariant
            old(table).well_formed(),
            table.well_formed(),
            t0 == *old(table),
            full == prim_records(prims@, inst),
            0 <= i <= prims@.len(),
            submitted_all(t0, *table, prim_records(prims@.take(i as int), inst)),
        decreases prims@.len() - i,
    {
        let ghost pre = *table;
        let ghost taken = prim_records(prims@.take(i as int), inst);
        let ghost step = seq![(prims@[i as int], inst)];
        let d = prims[i];
        let res = table.submit_one(d, inst);
        proof {
            lemma_prim_records_index(prims@, inst);
            lemma_prim_records_index(prims@.take(i as int), inst);
            lemma_prim_records_index(prims@.take(i as int + 1), inst);
            assert(prim_records(prims@.take(i as int + 1), inst) =~= taken + step);
            if res is Ok {
                assert forall|d2: Primitive|
                    table.staged(d2) == t0.staged(d2) + records_for(taken + step, d2) by {
                    lemma_records_for_concat(taken, step, d2);
                    lemma_records_for_singleton(prims@[i as int], inst, d2);
                    if d2 == prims@[i as int] {
                        assert(table.staged(d2) == pre.staged(d2).push(inst));
                        assert(pre.staged(d2) + seq![inst] =~= pre.staged(d2).push(inst));
                        assert(t0.staged(d2) + (records_for(taken, d2) + seq![inst]) =~= (
                        t0.staged(d2) + records_for(taken, d2)) + seq![inst]);
                    } else {
                        assert(table.staged(d2) == pre.staged(d2));
                        assert(t0.staged(d2) + (records_for(taken, d2) + Seq::<
                            Instance,
                        >::empty()) =~= t0.staged(d2) + records_for(taken, d2));
                    }
                }
                assert(submitted_all(t0, *table, prim_records(prims@.take(i as int + 1), inst)));
            } else {
                // the staging list for `d` is already at capacity
                assert(pre.staged(d).len() >= MAX_INSTANCES);
                assert forall|d2: Primitive|
                    table.staged(d2) == t0.staged(d2) + records_for(taken, d2) by {
                    if d2 == d {
                        assert(table.staged(d2) == pre.staged(d2));
                    } else {
                        assert(table.staged(d2) == pre.staged(d2));
                    }
                }
                assert(submitted_all(t0, *table, taken));
                // the whole record list overflows at `d`
                let rest = prim_records(prims@.skip(i as int), inst);
                lemma_prim_records_index(prims@.skip(i as int), inst);
                assert(full =~= taken + rest);
                lemma_records_for_concat(taken, rest, d);
                assert(rest[0] == (d, inst));
                assert(rest =~= seq![(d, inst)] + rest.drop_first());
                lemma_records_for_concat(seq![(d, inst)], rest.drop_first(), d);
                lemma_records_for_singleton(d, inst, d);
                assert(records_for(rest, d).len() >= 1);
                assert(overflow_at(t0, full, d));
                // what was staged is the prefix of the first `i` records
                assert(full.take(i as int) =~= taken);
                assert(0 <= i as int <= full.len() && submitted_all(t0, *table, full.take(
                    i as int,
                )));
            }
        }
        if let Err(e) = res {
            return Err(e);
        }
        i += 1;
    }
    proof {
        assert(prims@.take(prims@.len() as int) =~= prims@);
        assert(submitted_all(t0, *table, full));
        assert forall|d: Primitive|
            t0.staged(d).len() + #[trigger] records_for(full, d).len()
                <= MAX_INSTANCES by {
            lemma_staged_le_max(*table, d);
        }
    }
    Ok(())
}

/// Walks `node` depth-first under combined transform `t`, staging every
/// record `node_records` describes, in submission order.
pub(crate) fn submit_node(
    table: &mut PassBuffer,
    inst: Instance,
    t: &AffineBits,
    node: &Node,
) -> (r: Result<(), CapacityError>)
    requires
        old(table).well_formed(),
    ensures
        submission_outcome(*old(table), *final(table), node_records(inst, *t, *node), r),
    decreases *node,
{
    let ghost t0 = *old(table);
    let ghost full = node_records(inst, *t, *node);
    let ghost own = own_records(inst, *t, node.data);

    // the node's own payload
    let own_result = match &node.data {
        Some(NodeData::Model(m)) => submit_primitives(table, &m.primitives, inst.transformed(t)),
        _ => {
            proof {
                lemma_submitted_all_refl(t0);
            }
            Ok(())
        },
    };
    proof {
        if own_result is Ok {
            assert(submitted_all(t0, *table, own));
        }
    }
    if let Err(e) = own_result {
        proof {
            lemma_node_records_split(inst, *t, *node, 0);
            lemma_overflow_extend(t0, own, children_records(inst, *t, *node, 0), e.drawable);
            assert(own + children_records(inst, *t, *node, 0) == full);
            let k = choose|k: int|
                0 <= k <= own.len() && submitted_all(t0, *table, #[trigger] own.take(k));
            assert(own.take(k) =~= full.take(k)) by {
                assert(forall|j: int| 0 <= j < k ==> own.take(k)[j] == own[j]);
                assert(forall|j: int| 0 <= j < k ==> full.take(k)[j] == full[j]);
                assert(forall|j: int| 0 <= j < own.len() ==> full[j] == own[j]);
            }
            assert(0 <= k <= full.len() && submitted_all(t0, *table, full.take(k)));
        }
        return Err(e);
    }

    // the children, each under the transform composed with its local one
    let mut i: usize = 0;
    while i < node.children.len()
        invariant
            old(table).well_formed(),
            table.well_formed(),
            t0 == *old(table),
            full == node_records(inst, *t, *node),
            own == own_records(inst, *t, node.data),
            0 <= i <= node.children@.len(),
            submitted_all(t0, *table, own + children_upto(inst, *t, *node, i as int)),
        decreases node.children@.len() - i,
    {
        let ghost pre = *table;
        let ghost done = own + children_upto(inst, *t, *node, i as int);
        let child = &node.children[i];
        let ghost child_recs = node_records(
            inst,
            crate::math::affine_mul_of(*t, child.transform),
            child.inner,
        );
        let child_t = t.compose(&child.transform);
        let res = submit_node(table, inst, &child_t, &child.inner);
        proof {
            lemma_node_records_split(inst, *t, *node, i as int);
            assert(children_records(inst, *t, *node, i as int) == child_recs + children_records(
                inst,
                *t,
                *node,
                i as int + 1,
            ));
            assert(full == done + (child_recs + children_records(inst, *t, *node, i as int + 1)));
            assert(full == done + child_recs + children_records(inst, *t, *node, i as int + 1))
                by {
                assert(done + (child_recs + children_records(inst, *t, *node, i as int + 1)) =~= done
                    + child_recs + children_records(inst, *t, *node, i as int + 1));
            }
            if res is Ok {
                lemma_submitted_all_compose(t0, pre, *table, done, child_recs);
                assert(children_upto(inst, *t, *node, i as int + 1) == children_upto(
                    inst,
                    *t,
                    *node,
                    i as int,
                ) + child_recs);
                assert(own + (children_upto(inst, *t, *node, i as int) + child_recs) =~= (own
                    + children_upto(inst, *t, *node, i as int)) + child_recs);
                assert(submitted_all(t0, *table, own + children_upto(inst, *t, *node, i as int
                    + 1)));
            } else {
                let e = res->Err_0;
                lemma_overflow_lift(t0, pre, done, child_recs, e.drawable);
                lemma_overflow_extend(
                    t0,
                    done + child_recs,
                    children_records(inst, *t, *node, i as int + 1),
                    e.drawable,
                );
                assert(overflow_at(t0, full, e.drawable));
                let k = choose|k: int|
                    0 <= k <= child_recs.len() && submitted_all(pre, *table, #[trigger] child_recs.take(k));
                lemma_submitted_all_compose(t0, pre, *table, done, child_recs.take(k));
                lemma_take_of_concat(
                    done,
                    child_recs,
                    children_records(inst, *t, *node, i as int + 1),
                    k,
                );
                assert(full.take(done.len() + k) == done + child_recs.take(k));
                assert(0 <= done.len() + k <= full.len() && submitted_all(t0, *table, full.take(
                    done.len() + k,
                )));
            }
        }
        if let Err(e) = res {
            return Err(e);
        }
        i += 1;
    }
    proof {
        lemma_node_records_split(inst, *t, *node, node.children@.len() as int);
        assert(children_records(inst, *t, *node, node.children@.len() as int) == Seq::<
            (Primitive, Instance),
        >::empty());
        assert(own + children_upto(inst, *t, *node, node.children@.len() as int) + Seq::<
            (Primitive, Instance),
        >::empty() =~= own + children_upto(inst, *t, *node, node.children@.len() as int));
        assert(submitted_all(t0, *table, full));
        assert forall|d: Primitive|
            t0.staged(d).len() + #[trigger] records_for(full, d).len()
                <= MAX_INSTANCES by {
            lemma_staged_le_max(*table, d);
        }
    }
    Ok(())
}

/// The records of scene roots `..i`, each root drawn under its own
/// annotated transform with the incoming placement.
pub open spec fn scene_upto(inst: Instance, roots: Seq<WithTransform<Node>>, i: int) -> Seq<
    (Primitive, Instance),
>
    decreases i,
    when 0 <= i <= roots.len()
{
    if i <= 0 {
        Seq::empty()
    } else {
        scene_upto(inst, roots, i - 1) + node_records(
            inst,
            roots[i - 1].transform,
            roots[i - 1].inner,
        )
    }
}

/// All records a scene submission produces.
pub open spec fn scene_records(inst: Instance, s: Scene) -> Seq<(Primitive, Instance)> {
    scene_upto(inst, s.nodes@, s.nodes@.len() as int)
}

/// The suffix counterpart of `scene_upto`: records of roots `i..`.
pub open spec fn scene_from(inst: Instance, roots: Seq<WithTransform<Node>>, i: int) -> Seq<
    (Primitive, Instance),
>
    decreases roots.len() - i,
    when 0 <= i <= roots.len()
{
    if i >= roots.len() {
        Seq::empty()
    } else {
        node_records(inst, roots[i].transform, roots[i].inner) + scene_from(inst, roots, i + 1)
    }
}

/// Prefix plus suffix of the roots' records is the whole.
proof fn lemma_scene_parts(inst: Instance, roots: Seq<WithTransform<Node>>, i: int)
    requires
        0 <= i <= roots.len(),
    ensures
        scene_upto(inst, roots, i) + scene_from(inst, roots, i) == scene_upto(
            inst,
            roots,
            roots.len() as int,
        ),
    decreases roots.len() - i,
{
    if i == roots.len() {
        assert(scene_upto(inst, roots, i) + scene_from(inst, roots, i) =~= scene_upto(
            inst,
            roots,
            i,
        ));
    } else {
        lemma_scene_parts(inst, roots, i + 1);
        let mid = node_records(inst, roots[i].transform, roots[i].inner);
        assert(scene_upto(inst, roots, i + 1) == scene_upto(inst, roots, i) + mid);
        assert(scene_upto(inst, roots, i) + (mid + scene_from(inst, roots, i + 1)) =~= (
        scene_upto(inst, roots, i) + mid) + scene_from(inst, roots, i + 1));
    }
}

/// Stages every root of the scene, in order, under the incoming placement.
pub(crate) fn submit_scene(table: &mut PassBuffer, inst: Instance, scene: &Scene) -> (r: Result<
    (),
    CapacityError,
>)
    requires
        old(table).well_formed(),
    ensures
        submission_outcome(*old(table), *final(table), scene_records(inst, *scene), r),
{
    let ghost t0 = *old(table);
    let ghost roots = scene.nodes@;
    let ghost full = scene_records(inst, *scene);
    proof {
        lemma_submitted_all_refl(t0);
    }
    let mut i: usize = 0;
    while i < scene.nodes.len()
        invariant
            old(table).well_formed(),
            table.well_formed(),
            t0 == *old(table),
            roots == scene.nodes@,
            full == scene_records(inst, *scene),
            0 <= i <= roots.len(),
            submitted_all(t0, *table, scene_upto(inst, roots, i as int)),
        decreases roots.len() - i,
    {
        let ghost pre = *table;
        let ghost done = scene_upto(inst, roots, i as int);
        let root = &scene.nodes[i];
        let ghost root_recs = node_records(inst, root.transform, root.inner);
        let res = submit_node(table, inst, &root.transform, &root.inner);
        proof {
            lemma_scene_parts(inst, roots, i as int);
            assert(scene_from(inst, roots, i as int) == root_recs + scene_from(
                inst,
                roots,
                i as int + 1,
            ));
            assert(full == done + (root_recs + scene_from(inst, roots, i as int + 1)));
            assert(full == done + root_recs + scene_from(inst, roots, i as int + 1)) by {
                assert(done + (root_recs + scene_from(inst, roots, i as int + 1)) =~= done
                    + root_recs + scene_from(inst, roots, i as int + 1));
            }
            if res is Ok {
                lemma_submitted_all_compose(t0, pre, *table, done, root_recs);
                assert(scene_upto(inst, roots, i as int + 1) == done + root_recs);
            } else {
                let e = res->Err_0;
                lemma_overflow_lift(t0, pre, done, root_recs, e.drawable);
                lemma_overflow_extend(
                    t0,
                    done + root_recs,
                    scene_from(inst, roots, i as int + 1),
                    e.drawable,
                );
                let k = choose|k: int|
                    0 <= k <= root_recs.len() && submitted_all(pre, *table, #[trigger] root_recs.take(k));
                lemma_submitted_all_compose(t0, pre, *table, done, root_recs.take(k));
                lemma_take_of_concat(
                    done,
                    root_recs,
                    scene_from(inst, roots, i as int + 1),
                    k,
                );
                assert(0 <= done.len() + k <= full.len() && submitted_all(t0, *table, full.take(
                    done.len() + k,
                )));
            }
        }
        if let Err(e) = res {
            return Err(e);
        }
        i += 1;
    }
    proof {
        assert(submitted_all(t0, *table, full));
        assert forall|d: Primitive|
            t0.staged(d).len() + #[trigger] records_for(full, d).len()
                <= MAX_INSTANCES by {
            lemma_staged_le_max(*table, d);
        }
    }
    Ok(())
}

} // verus!
