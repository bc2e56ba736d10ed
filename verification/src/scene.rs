//! The scene graph and what a traversal of it submits.
//!
//! A scene is an immutable tree built once at load time: each node carries
//! an optional payload (camera marker or model) and a list of children, each
//! child annotated with a local affine transform relative to its parent.
//!
//! The spec functions here say exactly which (drawable, instance) records a
//! depth-first traversal of a node produces: at each node the running
//! transform is composed with the child's local transform, and a model
//! payload contributes one transformed record per primitive.

use crate::instance::Instance;
use crate::math::{affine_mul_of, AffineBits};
use crate::model::{Model, Primitive};
use vstd::prelude::*;

verus! {

/// A value annotated with a local affine transform.
pub struct WithTransform<T> {
    pub transform: AffineBits,
    pub inner: T,
}

impl<T: Copy> WithTransform<&T> {
    /// Copies the referenced value out.
    pub fn copied(&self) -> (r: WithTransform<T>)
        ensures
            r.transform == self.transform,
            r.inner == *self.inner,
    {
        WithTransform { transform: self.transform, inner: *self.inner }
    }
}

impl<T> WithTransform<T> {
    /// Borrows the annotated value.
    pub fn as_ref(&self) -> (r: WithTransform<&T>)
        ensures
            r.transform == self.transform,
            *r.inner == self.inner,
    {
        WithTransform { transform: self.transform, inner: &self.inner }
    }
}

/// What a node may carry: a camera marker or a model.
pub enum NodeData {
    Camera,
    Model(Model),
}

/// One node of the scene graph.
pub struct Node {
    pub data: Option<NodeData>,
    pub children: Vec<WithTransform<Node>>,
}

/// A scene: a non-empty list of transform-annotated root nodes.
pub struct Scene {
    pub nodes: Vec<WithTransform<Node>>,
}

impl Scene {
    /// A scene must hold at least one root node.
    pub open spec fn well_formed(self) -> bool {
        self.nodes@.len() > 0
    }

    /// Builds a scene from its roots; a scene cannot be empty.
    pub fn new(nodes: Vec<WithTransform<Node>>) -> (r: Option<Scene>)
        ensures
            nodes@.len() > 0 ==> r == Some(Scene { nodes }),
            nodes@.len() == 0 ==> r is None,
    {
        if nodes.len() > 0 {
            Some(Scene { nodes })
        } else {
            None
        }
    }
}

/// The records a model payload contributes: one per primitive, all carrying
/// the same transformed instance.
pub open spec fn prim_records(prims: Seq<Primitive>, inst: Instance) -> Seq<(Primitive, Instance)>
    decreases prims.len(),
{
    if prims.len() == 0 {
        Seq::empty()
    } else {
        seq![(prims[0], inst)] + prim_records(prims.drop_first(), inst)
    }
}

/// The records a node's own payload contributes, under combined transform `t`.
pub open spec fn own_records(inst: Instance, t: AffineBits, data: Option<NodeData>) -> Seq<
    (Primitive, Instance),
> {
    match data {
        Some(NodeData::Model(m)) => prim_records(m.primitives@, inst.spec_transformed(t)),
        _ => Seq::empty(),
    }
}

/// All records a depth-first traversal of `n` produces, in submission
/// order, when the combined transform at `n` is `t` and the incoming
/// placement is `inst`.
pub open spec fn node_records(inst: Instance, t: AffineBits, n: Node) -> Seq<(Primitive, Instance)>
    decreases n, n.children@.len() + 1int,
{
    own_records(inst, t, n.data) + children_records(inst, t, n, 0)
}

/// The records of children `i..` of `n`, each under the transform obtained
/// by composing `t` with the child's local transform.
pub open spec fn children_records(inst: Instance, t: AffineBits, n: Node, i: int) -> Seq<
    (Primitive, Instance),
>
    decreases n, n.children@.len() - i,
    when 0 <= i
{
    if i >= n.children@.len() {
        Seq::empty()
    } else {
        node_records(inst, affine_mul_of(t, n.children@[i].transform), n.children@[i].inner)
            + children_records(inst, t, n, i + 1)
    }
}

/// The records of children `..i` of `n`, in order: the prefix counterpart
/// of `children_records`.
pub open spec fn children_upto(inst: Instance, t: AffineBits, n: Node, i: int) -> Seq<
    (Primitive, Instance),
>
    decreases n, i,
    when 0 <= i <= n.children@.len()
{
    if i <= 0 {
        Seq::empty()
    } else {
        children_upto(inst, t, n, i - 1) + node_records(
            inst,
            affine_mul_of(t, n.children@[i - 1].transform),
            n.children@[i - 1].inner,
        )
    }
}

/// A node's records are its own followed by the records of children `..i`
/// followed by the records of children `i..`.
pub proof fn lemma_node_records_split(inst: Instance, t: AffineBits, n: Node, i: int)
    requires
        0 <= i <= n.children@.len(),
    ensures
        node_records(inst, t, n) == own_records(inst, t, n.data) + children_upto(inst, t, n, i)
            + children_records(inst, t, n, i),
{
    lemma_children_parts(inst, t, n, 0);
    lemma_children_parts(inst, t, n, i);
    assert(children_upto(inst, t, n, 0) + children_records(inst, t, n, 0) =~= children_records(
        inst,
        t,
        n,
        0,
    ));
    assert(own_records(inst, t, n.data) + (children_upto(inst, t, n, i) + children_records(
        inst,
        t,
        n,
        i,
    )) =~= own_records(inst, t, n.data) + children_upto(inst, t, n, i) + children_records(
        inst,
        t,
        n,
        i,
    ));
}

/// Prefix plus suffix of the children's records is the whole.
proof fn lemma_children_parts(inst: Instance, t: AffineBits, n: Node, i: int)
    requires
        0 <= i <= n.children@.len(),
    ensures
        children_upto(inst, t, n, i) + children_records(inst, t, n, i) == children_upto(
            inst,
            t,
            n,
            n.children@.len() as int,
        ),
    decreases n.children@.len() - i,
{
    if i == n.children@.len() {
        assert(children_upto(inst, t, n, i) + children_records(inst, t, n, i) =~= children_upto(
            inst,
            t,
            n,
            i,
        ));
    } else {
        lemma_children_parts(inst, t, n, i + 1);
        let child = node_records(
            inst,
            affine_mul_of(t, n.children@[i].transform),
            n.children@[i].inner,
        );
        assert(children_upto(inst, t, n, i + 1) == children_upto(inst, t, n, i) + child);
        assert(children_upto(inst, t, n, i) + (child + children_records(inst, t, n, i + 1))
            =~= (children_upto(inst, t, n, i) + child) + children_records(inst, t, n, i + 1));
    }
}

/// The instances destined for one drawable, in order, among a record list.
pub open spec fn records_for(rs: Seq<(Primitive, Instance)>, d: Primitive) -> Seq<Instance>
    decreases rs.len(),
{
    if rs.len() == 0 {
        Seq::empty()
    } else {
        (if rs[0].0 == d {
            seq![rs[0].1]
        } else {
            Seq::empty()
        }) + records_for(rs.drop_first(), d)
    }
}

/// A model's records: one per primitive, in order, all with the same instance.
pub proof fn lemma_prim_records_index(prims: Seq<Primitive>, inst: Instance)
    ensures
        prim_records(prims, inst).len() == prims.len(),
        forall|j: int|
            0 <= j < prims.len() ==> prim_records(prims, inst)[j] == (prims[j], inst),
    decreases prims.len(),
{
    if prims.len() > 0 {
        lemma_prim_records_index(prims.drop_first(), inst);
        assert(forall|j: int|
            0 <= j < prims.drop_first().len() ==> prims.drop_first()[j] == prims[j + 1]);
    }
}

/// What a one-record list stages for each drawable.
pub proof fn lemma_records_for_singleton(p: Primitive, i: Instance, d: Primitive)
    ensures
        d == p ==> records_for(seq![(p, i)], d) == seq![i],
        d != p ==> records_for(seq![(p, i)], d) == Seq::<Instance>::empty(),
{
    let s = seq![(p, i)];
    assert(s.len() == 1);
    assert(s[0] == (p, i));
    assert(s.drop_first() =~= Seq::<(Primitive, Instance)>::empty());
    assert(records_for(s.drop_first(), d) == Seq::<Instance>::empty());
    if d == p {
        assert(records_for(s, d) == seq![s[0].1] + records_for(s.drop_first(), d));
        assert(seq![s[0].1] + Seq::<Instance>::empty() =~= seq![i]);
    } else {
        assert(records_for(s, d) == Seq::<Instance>::empty() + records_for(s.drop_first(), d));
        assert(Seq::<Instance>::empty() + Seq::<Instance>::empty() =~= Seq::<
            Instance,
        >::empty());
    }
}

/// Projection distributes over concatenation.
pub proof fn lemma_records_for_concat(a: Seq<(Primitive, Instance)>, b: Seq<(Primitive, Instance)>, d: Primitive)
    ensures
        records_for(a + b, d) == records_for(a, d) + records_for(b, d),
    decreases a.len(),
{
    if a.len() == 0 {
        assert(a + b == b);
        assert(records_for(a, d) + records_for(b, d) == records_for(b, d));
    } else {
        assert((a + b).drop_first() == a.drop_first() + b);
        lemma_records_for_concat(a.drop_first(), b, d);
        assert(records_for(a + b, d) == records_for(a, d) + records_for(b, d));
    }
}

} // verus!
