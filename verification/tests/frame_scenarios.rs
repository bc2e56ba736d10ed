//! End-to-end frame scenarios: building a scene, submitting it, finishing
//! the pass, and concluding the frame.

use fire_and_sword::batch::{CapacityError, InstanceSyncBuffer, PassBuffer, MAX_INSTANCES};
use fire_and_sword::identify::{Id, IdCounter, WithId};
use fire_and_sword::instance::Instance;
use fire_and_sword::math::{AffineBits, Mat4Bits, QuatBits, Vec3Bits, Vec4Bits};
use fire_and_sword::model::{Model, Primitive};
use fire_and_sword::render_pass::{conclude, DrawCall, RenderPass, WithInstance, WriteOutcome};
use fire_and_sword::scene::{Node, NodeData, Scene, WithTransform};

fn v3(x: f32, y: f32, z: f32) -> Vec3Bits {
    Vec3Bits { x: x.to_bits(), y: y.to_bits(), z: z.to_bits() }
}

fn v4(x: f32, y: f32, z: f32, w: f32) -> Vec4Bits {
    Vec4Bits { x: x.to_bits(), y: y.to_bits(), z: z.to_bits(), w: w.to_bits() }
}

fn fresh_primitive(counter: &mut IdCounter) -> Primitive {
    let mesh = WithId::register((), counter);
    let material = WithId::register((), counter);
    Primitive::new(&mesh, &material)
}

fn model_node(prim: Primitive, transform: AffineBits) -> WithTransform<Node> {
    WithTransform {
        transform,
        inner: Node {
            data: Some(NodeData::Model(Model::new(vec![prim]).unwrap())),
            children: Vec::new(),
        },
    }
}

fn translation(x: f32, y: f32, z: f32) -> AffineBits {
    AffineBits::from_scale_rotation_translation(
        &v3(1.0, 1.0, 1.0),
        &QuatBits::identity(),
        &v3(x, y, z),
    )
}

#[test]
fn empty_scene_draws_nothing() {
    let scene = Scene::new(vec![WithTransform {
        transform: AffineBits::identity(),
        inner: Node { data: None, children: Vec::new() },
    }])
    .unwrap();
    let table = PassBuffer::new();
    let mut pass = RenderPass::begin(table);
    pass.draw_scene(Instance::identity(), &scene).unwrap();
    let (_table, plan) = pass.finish();
    assert_eq!(plan.flushes.len(), 0);
    assert!(plan.camera_write.is_none());
    let draws = conclude(&plan, &Vec::new()).unwrap();
    assert_eq!(draws.len(), 0);
}

#[test]
fn one_primitive_one_instance() {
    let mut counter = IdCounter::new();
    let prim = fresh_primitive(&mut counter);
    let node = model_node(prim, AffineBits::identity());
    let table = PassBuffer::new();
    let mut pass = RenderPass::begin(table);
    pass.draw_node(Instance::identity(), &node).unwrap();
    let (_table, plan) = pass.finish();
    assert_eq!(plan.flushes.len(), 1);
    assert_eq!(plan.flushes[0].drawable, prim);
    assert_eq!(plan.flushes[0].records.len(), 1);
    let draws = conclude(&plan, &vec![WriteOutcome::Done]).unwrap();
    assert_eq!(draws, vec![DrawCall { drawable: prim, count: 1 }]);
}

#[test]
fn shared_identity_coalesces_in_submission_order() {
    let mut counter = IdCounter::new();
    let prim = fresh_primitive(&mut counter);
    let scene = Scene::new(vec![
        model_node(prim, translation(1.0, 0.0, 0.0)),
        model_node(prim, translation(0.0, 2.0, 0.0)),
    ])
    .unwrap();
    let table = PassBuffer::new();
    let mut pass = RenderPass::begin(table);
    pass.draw_scene(Instance::identity(), &scene).unwrap();
    let (_table, plan) = pass.finish();
    // one batch buffer, one draw call over the combined range
    assert_eq!(plan.flushes.len(), 1);
    assert_eq!(plan.flushes[0].drawable, prim);
    let records = &plan.flushes[0].records;
    assert_eq!(records.len(), 2);
    // both transformed positions, in submission order
    assert_eq!(records[0].position, v4(1.0, 0.0, 0.0, 1.0));
    assert_eq!(records[1].position, v4(0.0, 2.0, 0.0, 1.0));
    let draws = conclude(&plan, &vec![WriteOutcome::Done]).unwrap();
    assert_eq!(draws, vec![DrawCall { drawable: prim, count: 2 }]);
}

#[test]
fn child_transform_translates_but_does_not_scale_position() {
    // a child with translate=(1,0,0), scale=2 under an identity-instance
    // parent: the child's world position is exactly (1,0,0) — the scale is
    // not applied to the position, and rotations compose into the rotation
    // component only
    let mut counter = IdCounter::new();
    let prim = fresh_primitive(&mut counter);
    let child_transform = AffineBits::from_scale_rotation_translation(
        &v3(2.0, 2.0, 2.0),
        &QuatBits::identity(),
        &v3(1.0, 0.0, 0.0),
    );
    let root = WithTransform {
        transform: AffineBits::identity(),
        inner: Node {
            data: None,
            children: vec![model_node(prim, child_transform)],
        },
    };
    let table = PassBuffer::new();
    let mut pass = RenderPass::begin(table);
    pass.draw_node(Instance::identity(), &root).unwrap();
    let (_table, plan) = pass.finish();
    assert_eq!(plan.flushes.len(), 1);
    let rec = plan.flushes[0].records[0];
    assert_eq!(rec.position, v4(1.0, 0.0, 0.0, 1.0));
    assert_eq!(rec.rotation, QuatBits::identity());
}

#[test]
fn nested_transforms_compose_down_the_tree() {
    // a model two levels deep sits at the composition of both
    // translations; a model at the root shares its drawable and coalesces
    // with it from a different depth
    let mut counter = IdCounter::new();
    let prim = fresh_primitive(&mut counter);
    let grandchild = model_node(prim, translation(0.0, 1.0, 0.0));
    let child = WithTransform {
        transform: translation(1.0, 0.0, 0.0),
        inner: Node { data: None, children: vec![grandchild] },
    };
    let root = WithTransform {
        transform: AffineBits::identity(),
        inner: Node {
            data: Some(NodeData::Model(Model::new(vec![prim]).unwrap())),
            children: vec![child],
        },
    };
    let table = PassBuffer::new();
    let mut pass = RenderPass::begin(table);
    pass.draw_node(Instance::identity(), &root).unwrap();
    let (_table, plan) = pass.finish();
    assert_eq!(plan.flushes.len(), 1);
    let records = &plan.flushes[0].records;
    assert_eq!(records.len(), 2);
    // the root's own record first, at the origin
    assert_eq!(records[0].position, v4(0.0, 0.0, 0.0, 1.0));
    // then the grandchild's, at the composed translation
    assert_eq!(records[1].position, v4(1.0, 1.0, 0.0, 1.0));
    let draws = conclude(&plan, &vec![WriteOutcome::Done]).unwrap();
    assert_eq!(draws, vec![DrawCall { drawable: prim, count: 2 }]);
}

#[test]
fn distinct_drawables_flush_in_key_order_either_way() {
    // whichever order the two drawables are submitted in, the flushes come
    // out in identifier order
    let mut counter = IdCounter::new();
    let first = fresh_primitive(&mut counter);
    let second = fresh_primitive(&mut counter);

    for order in [[first, second], [second, first]] {
        let table = PassBuffer::new();
        let mut pass = RenderPass::begin(table);
        for prim in order {
            pass.draw_primitive(prim, Instance::identity()).unwrap();
        }
        let (_table, plan) = pass.finish();
        assert_eq!(plan.flushes.len(), 2);
        assert_eq!(plan.flushes[0].drawable, first);
        assert_eq!(plan.flushes[1].drawable, second);
    }
}

#[test]
fn table_survives_flush_and_empties_staging() {
    let mut counter = IdCounter::new();
    let prim = fresh_primitive(&mut counter);
    let table = PassBuffer::new();
    let mut pass = RenderPass::begin(table);
    pass.draw_primitive(prim, Instance::identity()).unwrap();
    let (table, plan) = pass.finish();
    assert_eq!(plan.flushes.len(), 1);
    // the entry survives, but nothing is pending: the next frame flushes
    // nothing for this drawable
    let mut pass = RenderPass::begin(table);
    pass.set_camera(Mat4Bits::from_words([0; 16]));
    let (_table, plan) = pass.finish();
    assert_eq!(plan.flushes.len(), 0);
    assert!(plan.camera_write.is_some());
}

#[test]
fn overflowing_a_batch_is_reported() {
    let mut counter = IdCounter::new();
    let prim = fresh_primitive(&mut counter);
    let table = PassBuffer::new();
    let mut pass = RenderPass::begin(table);
    for _ in 0..MAX_INSTANCES {
        pass.draw_primitive(prim, Instance::identity()).unwrap();
    }
    let err = pass.draw_primitive(prim, Instance::identity()).unwrap_err();
    assert_eq!(err, CapacityError { drawable: prim });
}

#[test]
fn overflow_during_traversal_names_the_drawable() {
    let mut counter = IdCounter::new();
    let prim = fresh_primitive(&mut counter);
    let node = model_node(prim, AffineBits::identity());
    let table = PassBuffer::new();
    let mut pass = RenderPass::begin(table);
    for _ in 0..MAX_INSTANCES {
        pass.draw_primitive(prim, Instance::identity()).unwrap();
    }
    let err = pass.draw_node(Instance::identity(), &node).unwrap_err();
    assert_eq!(err.drawable, prim);
}

#[test]
fn staging_buffer_flush_on_empty_is_nothing_to_do() {
    let mut buffer = InstanceSyncBuffer::new(MAX_INSTANCES);
    assert!(buffer.finish().is_none());
    // a flush hands back what was staged and leaves the list empty
    let mut buffer = InstanceSyncBuffer::new_init(
        MAX_INSTANCES,
        vec![Instance::identity(), Instance::identity()],
    );
    let flushed = buffer.finish().unwrap();
    assert_eq!(flushed.len(), 2);
    assert!(buffer.finish().is_none());
}

#[test]
fn identifier_generation_counts_up_and_wraps() {
    let mut counter = IdCounter::new();
    let a = Id::generate(&mut counter);
    let b = Id::generate(&mut counter);
    assert_eq!(a, Id(0));
    assert_eq!(b, Id(1));
    let mut worn = IdCounter::new();
    for _ in 0..0x10000 {
        Id::generate(&mut worn);
    }
    // the 16-bit counter wraps: the next identifier repeats the first
    assert_eq!(Id::generate(&mut worn), Id(0));
}

#[test]
fn with_instance_carries_placement_and_value() {
    let item = WithInstance { instance: Instance::identity(), inner: 5u32 };
    let copied = item.as_ref().copied();
    assert_eq!(copied.inner, 5);
    assert_eq!(copied.instance, Instance::identity());

    let wt = WithTransform { transform: AffineBits::identity(), inner: 9u32 };
    let copied = wt.as_ref().copied();
    assert_eq!(copied.inner, 9);
}

#[test]
fn registered_values_compare_by_identifier() {
    let mut counter = IdCounter::new();
    let a = WithId::register(7u32, &mut counter);
    let b = a.clone();
    assert_eq!(*a.as_ref(), 7);
    assert_eq!(a.id(), b.id());
    let c = WithId::register(7u32, &mut counter);
    assert_ne!(a.id(), c.id());
    // equality goes by identifier only, never by the registered contents
    assert!(a == b);
    assert!(a != c);
}
