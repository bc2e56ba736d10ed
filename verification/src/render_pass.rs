//! The frame orchestrator.
//!
//! A render pass moves through three stages. While building, draw
//! submissions go into the batch table and a camera matrix may be
//! recorded. `finish` consumes the pass and decides the whole frame: the
//! optional camera write, then one flush per drawable with pending
//! records, in key order. The caller performs the planned writes through
//! the write protocol and reports each outcome; `conclude` then either
//! hands back one instanced draw call per flushed drawable, or the error
//! of the first failed write — so no draw is ever issued for a frame whose
//! writes did not all land.

use crate::batch::{
    flushes_of, lemma_flushes_wf, lemma_staged_le_max, CapacityError, FlushItem, PassBuffer,
    MAX_INSTANCES,
};
use crate::instance::Instance;
use crate::math::Mat4Bits;
use crate::model::{Model, Primitive};
use crate::scene::{
    lemma_records_for_singleton, node_records, prim_records, records_for, Node, Scene,
    WithTransform,
};
use crate::submit::{
    scene_records, submission_outcome, submit_node, submit_primitives, submit_scene,
    submitted_all,
};
use crate::write_protocol::WriteErrorKind;
use vstd::prelude::*;

verus! {

/// A value paired with the placement it is drawn at.
pub struct WithInstance<T> {
    pub instance: Instance,
    pub inner: T,
}

impl<T: Copy> WithInstance<&T> {
    /// Copies the referenced value out.
    pub fn copied(&self) -> (r: WithInstance<T>)
        ensures
            r.instance == self.instance,
            r.inner == *self.inner,
    {
        WithInstance { instance: self.instance, inner: *self.inner }
    }
}

impl<T> WithInstance<T> {
    /// Borrows the carried value.
    pub fn as_ref(&self) -> (r: WithInstance<&T>)
        ensures
            r.instance == self.instance,
            *r.inner == self.inner,
    {
        WithInstance { instance: self.instance, inner: &self.inner }
    }
}

/// One instanced draw call: bind the drawable's mesh, material and
/// instance buffer, then draw instances `0..count`.
#[derive(Debug, Clone, Copy, PartialEq, Eq, Structural)]
pub struct DrawCall {
    pub drawable: Primitive,
    pub count: u32,
}

/// Which buffer a failed write concerned.
#[derive(Debug, Clone, Copy, PartialEq, Eq, Structural)]
pub enum WriteTarget {
    /// The camera's uniform buffer.
    CameraBuffer,
    /// The named drawable's instance buffer.
    Batch(Primitive),
}

/// A frame aborted by a failed buffer write: the failure's kind, and the
/// resource it concerned.
#[derive(Debug, Clone, Copy, PartialEq, Eq, Structural)]
pub struct FrameError {
    pub target: WriteTarget,
    pub kind: WriteErrorKind,
}

/// How one planned write went, reported back by whoever drove it.
#[derive(Debug, Clone, Copy, PartialEq, Eq, Structural)]
pub enum WriteOutcome {
    Done,
    Failed(WriteErrorKind),
}

/// Everything `finish` decided for a frame: the optional camera write,
/// then the per-drawable flushes, in key order. The camera write is
/// performed first; every flush is performed and awaited before any draw
/// call is issued.
pub struct FramePlan {
    pub camera_write: Option<Mat4Bits>,
    pub flushes: Vec<FlushItem>,
}

impl FramePlan {
    /// Every flush holds at least one record and fits its buffer.
    pub open spec fn well_formed(self) -> bool {
        forall|j: int|
            0 <= j < self.flushes@.len() ==> 0 < (#[trigger] self.flushes@[j]).records@.len()
                <= MAX_INSTANCES
    }

    /// How many buffer writes the plan asks for.
    pub open spec fn spec_write_count(self) -> int {
        (if self.camera_write is Some {
            1int
        } else {
            0int
        }) + self.flushes@.len()
    }

    /// The buffer that write `j` of the plan targets.
    pub open spec fn spec_target(self, j: int) -> WriteTarget {
        if self.camera_write is Some && j == 0 {
            WriteTarget::CameraBuffer
        } else {
            WriteTarget::Batch(
                self.flushes@[j - (if self.camera_write is Some {
                    1int
                } else {
                    0int
                })].drawable,
            )
        }
    }
}

/// A render pass under construction, exclusively borrowing the batch
/// table for its duration: it is created over the table, fed submissions,
/// and consumed by `finish`, which hands the table back.
pub struct RenderPass {
    buffer: PassBuffer,
    camera: Option<Mat4Bits>,
}

impl RenderPass {
    /// The batch table as the pass sees it.
    pub closed spec fn spec_buffer(self) -> PassBuffer {
        self.buffer
    }

    /// The camera matrix recorded for this pass, if any.
    pub closed spec fn spec_camera(self) -> Option<Mat4Bits> {
        self.camera
    }

    /// A pass is as well formed as its table.
    pub open spec fn well_formed(self) -> bool {
        self.spec_buffer().well_formed()
    }

    /// Opens a pass over the batch table. No camera write is planned
    /// until `set_camera` records one.
    pub fn begin(buffer: PassBuffer) -> (r: RenderPass)
        requires
            buffer.well_formed(),
        ensures
            r.spec_buffer() == buffer,
            r.spec_camera() is None,
            r.well_formed(),
    {
        RenderPass { buffer, camera: None }
    }

    /// Records the camera matrix to flush when the pass finishes;
    /// optional — if never called, no camera write occurs this pass.
    pub fn set_camera(&mut self, camera: Mat4Bits)
        ensures
            final(self).spec_camera() == Some(camera),
            final(self).spec_buffer() == old(self).spec_buffer(),
    {
        self.camera = Some(camera);
    }

    /// Directly enqueues a single instance for one drawable.
    pub fn draw_primitive(&mut self, drawable: Primitive, instance: Instance) -> (r: Result<
        (),
        CapacityError,
    >)
        requires
            old(self).well_formed(),
        ensures
            submission_outcome(
                old(self).spec_buffer(),
                final(self).spec_buffer(),
                seq![(drawable, instance)],
                r,
            ),
            final(self).spec_camera() == old(self).spec_camera(),
    {
        let ghost t0 = self.buffer;
        let ghost rs = seq![(drawable, instance)];
        let res = self.buffer.submit_one(drawable, instance);
        proof {
            lemma_records_for_singleton(drawable, instance, drawable);
            if res is Ok {
                assert forall|d2: Primitive|
                    self.buffer.staged(d2) == t0.staged(d2) + records_for(rs, d2) by {
                    lemma_records_for_singleton(drawable, instance, d2);
                    if d2 == drawable {
                        assert(t0.staged(d2) + seq![instance] =~= t0.staged(d2).push(instance));
                    } else {
                        assert(t0.staged(d2) + Seq::<Instance>::empty() =~= t0.staged(d2));
                    }
                }
                assert forall|d2: Primitive|
                    t0.staged(d2).len() + #[trigger] records_for(rs, d2).len()
                        <= MAX_INSTANCES by {
                    lemma_records_for_singleton(drawable, instance, d2);
                    lemma_staged_le_max(self.buffer, d2);
                    if d2 == drawable {
                        assert(self.buffer.staged(d2) == t0.staged(d2).push(instance));
                    } else {
                        assert(self.buffer.staged(d2) == t0.staged(d2));
                    }
                }
            } else {
                assert(t0.staged(drawable).len() + records_for(rs, drawable).len()
                    > MAX_INSTANCES);
                assert forall|d2: Primitive|
                    self.buffer.staged(d2) == t0.staged(d2) + records_for(
                        rs.take(0),
                        d2,
                    ) by {
                    assert(rs.take(0) =~= Seq::<(Primitive, Instance)>::empty());
                    assert(t0.staged(d2) + records_for(rs.take(0), d2) =~= t0.staged(d2));
                }
                assert(0 <= 0 <= rs.len() && submitted_all(t0, self.buffer, rs.take(0)));
            }
        }
        res
    }

    /// Enqueues one instance per primitive of a model, all at the given
    /// placement.
    pub fn draw_model(&mut self, instance: Instance, model: &Model) -> (r: Result<
        (),
        CapacityError,
    >)
        requires
            old(self).well_formed(),
        ensures
            submission_outcome(
                old(self).spec_buffer(),
                final(self).spec_buffer(),
                prim_records(model.primitives@, instance),
                r,
            ),
            final(self).spec_camera() == old(self).spec_camera(),
    {
        submit_primitives(&mut self.buffer, &model.primitives, instance)
    }

    /// Submits a transform-annotated node: walks it depth-first, composing
    /// transforms, staging one record per primitive of every model met.
    pub fn draw_node(&mut self, instance: Instance, node: &WithTransform<Node>) -> (r: Result<
        (),
        CapacityError,
    >)
        requires
            old(self).well_formed(),
        ensures
            submission_outcome(
                old(self).spec_buffer(),
                final(self).spec_buffer(),
                node_records(instance, node.transform, node.inner),
                r,
            ),
            final(self).spec_camera() == old(self).spec_camera(),
    {
        submit_node(&mut self.buffer, instance, &node.transform, &node.inner)
    }

    /// Submits every root of a scene under the given placement.
    pub fn draw_scene(&mut self, instance: Instance, scene: &Scene) -> (r: Result<
        (),
        CapacityError,
    >)
        requires
            old(self).well_formed(),
        ensures
            submission_outcome(
                old(self).spec_buffer(),
                final(self).spec_buffer(),
                scene_records(instance, *scene),
                r,
            ),
            final(self).spec_camera() == old(self).spec_camera(),
    {
        submit_scene(&mut self.buffer, instance, scene)
    }

    /// Consumes the pass and decides the frame: the optional camera
    /// write, then one flush per drawable with pending records, in key
    /// order. Every staging list is swapped out empty; the table and its
    /// entries survive for the next frame.
    pub fn finish(self) -> (r: (PassBuffer, FramePlan))
        requires
            self.well_formed(),
        ensures
            r.1.camera_write == self.spec_camera(),
            r.1.well_formed(),
            r.1.flushes@.len() == flushes_of(self.spec_buffer().entries_view()).len(),
            forall|j: int|
                0 <= j < r.1.flushes@.len() ==> (#[trigger] r.1.flushes@[j]).drawable
                    == flushes_of(self.spec_buffer().entries_view())[j].0
                    && r.1.flushes@[j].records@ == flushes_of(
                    self.spec_buffer().entries_view(),
                )[j].1,
            r.0.well_formed(),
            forall|d: Primitive| r.0.staged(d) == Seq::<Instance>::empty(),
            r.0.entries_view().len() == self.spec_buffer().entries_view().len(),
            forall|i: int|
                0 <= i < r.0.entries_view().len() ==> (#[trigger] r.0.entries_view()[i]).0
                    == self.spec_buffer().entries_view()[i].0,
    {
        let RenderPass { mut buffer, camera } = self;
        proof {
            lemma_flushes_wf(buffer.entries_view());
        }
        let flushes = buffer.flush_all();
        (buffer, FramePlan { camera_write: camera, flushes })
    }
}

/// Collects the outcomes of the planned writes. If every write landed,
/// returns one draw call per flushed drawable, in plan (key) order, each
/// drawing instances `0..count` where `count` is exactly the number of
/// records flushed for that drawable. If any write failed, returns the
/// first failure, naming the buffer it concerned — and no draw calls, so
/// a failed frame draws nothing.
pub fn conclude(plan: &FramePlan, outcomes: &Vec<WriteOutcome>) -> (r: Result<
    Vec<DrawCall>,
    FrameError,
>)
    requires
        plan.well_formed(),
        outcomes@.len() == plan.spec_write_count(),
    ensures
        r is Ok <==> (forall|j: int|
            0 <= j < outcomes@.len() ==> !((#[trigger] outcomes@[j]) is Failed)),
        r matches Ok(draws) ==> draws@.len() == plan.flushes@.len() && (forall|j: int|
            0 <= j < draws@.len() ==> (#[trigger] draws@[j]).drawable
                == plan.flushes@[j].drawable && draws@[j].count == plan.flushes@[j].records@.len()),
        r matches Err(e) ==> exists|j: int|
            0 <= j < outcomes@.len() && ((#[trigger] outcomes@[j]) matches
            WriteOutcome::Failed(k) && e == (FrameError { target: plan.spec_target(j), kind: k }))
                && (forall|j2: int| 0 <= j2 < j ==> !((#[trigger] outcomes@[j2]) is Failed)),
{
    let camera_writes: usize = if plan.camera_write.is_some() {
        1
    } else {
        0
    };
    let mut j: usize = 0;
    while j < outcomes.len()
        invariant
            0 <= j <= outcomes@.len(),
            outcomes@.len() == plan.spec_write_count(),
            camera_writes == (if plan.camera_write is Some {
                1int
            } else {
                0int
            }),
            forall|j2: int| 0 <= j2 < j ==> !((#[trigger] outcomes@[j2]) is Failed),
        decreases outcomes@.len() - j,
    {
        if let WriteOutcome::Failed(kind) = outcomes[j] {
            let target = if j < camera_writes {
                WriteTarget::CameraBuffer
            } else {
                WriteTarget::Batch(plan.flushes[j - camera_writes].drawable)
            };
            return Err(FrameError { target, kind });
        }
        j += 1;
    }
    let mut draws: Vec<DrawCall> = Vec::new();
    let mut i: usize = 0;
    while i < plan.flushes.len()
        invariant
            plan.well_formed(),
            0 <= i <= plan.flushes@.len(),
            draws@.len() == i,
            forall|k: int|
                0 <= k < i ==> (#[trigger] draws@[k]).drawable == plan.flushes@[k].drawable
                    && draws@[k].count == plan.flushes@[k].records@.len(),
        decreases plan.flushes@.len() - i,
    {
        let count = plan.flushes[i].records.len();
        draws.push(DrawCall { drawable: plan.flushes[i].drawable, count: count as u32 });
        i += 1;
    }
    Ok(draws)
}

} // verus!
