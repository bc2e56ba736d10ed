//! The buffer-write protocol's decisions, case by case.

use fire_and_sword::render_pass::{
    conclude, FrameError, FramePlan, WriteOutcome, WriteTarget,
};
use fire_and_sword::batch::PassBuffer;
use fire_and_sword::identify::{IdCounter, WithId};
use fire_and_sword::instance::Instance;
use fire_and_sword::math::Mat4Bits;
use fire_and_sword::model::Primitive;
use fire_and_sword::render_pass::RenderPass;
use fire_and_sword::write_protocol::{
    begin_session, begin_write, on_completion, on_map_ready, on_signal_sent, SessionStart,
    WriteBegin, WriteErrorKind,
};

#[test]
fn zero_length_write_is_a_no_op() {
    // an empty element range succeeds at once, without the map operation
    match begin_write(64, 5, 5, 10) {
        WriteBegin::NothingToDo => {}
        WriteBegin::MapRange { .. } => panic!("an empty range must not be mapped"),
    }
}

#[test]
fn nonempty_write_maps_exactly_the_element_bytes() {
    match begin_write(16, 1, 3, 10) {
        WriteBegin::NothingToDo => panic!("a non-empty range must be mapped"),
        WriteBegin::MapRange { byte_start, byte_end } => {
            assert_eq!(byte_start, 16);
            assert_eq!(byte_end, 48);
        }
    }
}

#[test]
fn map_failure_is_reported_as_such() {
    assert_eq!(on_map_ready(false, 64, 16), Err(WriteErrorKind::MapFailed));
}

#[test]
fn indivisible_byte_range_is_a_cast_mismatch() {
    assert_eq!(on_map_ready(true, 10, 4), Err(WriteErrorKind::CastMismatch));
}

#[test]
fn divisible_byte_range_casts_to_the_element_count() {
    assert_eq!(on_map_ready(true, 64, 16), Ok(4));
}

#[test]
fn dropped_receiver_is_a_send_failure() {
    assert_eq!(on_signal_sent(false), Err(WriteErrorKind::SendFailed));
    assert_eq!(on_signal_sent(true), Ok(()));
}

#[test]
fn closed_channel_is_a_cancellation() {
    assert_eq!(on_completion(false), Err(WriteErrorKind::Cancelled));
    assert_eq!(on_completion(true), Ok(()));
}

#[test]
fn session_for_empty_range_concludes_without_mapping() {
    match begin_session(64, 3, 3, 8) {
        SessionStart::Immediate => {}
        SessionStart::Mapping { .. } => panic!("an empty range must not open a mapping"),
    }
}

#[test]
fn session_concludes_after_the_poll() {
    match begin_session(32, 0, 4, 8) {
        SessionStart::Immediate => panic!("a non-empty range must map"),
        SessionStart::Mapping { mut session, byte_start, byte_end } => {
            assert_eq!((byte_start, byte_end), (0, 128));
            session.poll_done();
            assert_eq!(session.complete(true), Ok(()));
        }
    }
}

#[test]
fn session_reports_cancellation() {
    match begin_session(32, 0, 1, 8) {
        SessionStart::Immediate => panic!("a non-empty range must map"),
        SessionStart::Mapping { mut session, .. } => {
            session.poll_done();
            assert_eq!(session.complete(false), Err(WriteErrorKind::Cancelled));
        }
    }
}

fn one_flush_plan(with_camera: bool) -> (Primitive, FramePlan) {
    let mut counter = IdCounter::new();
    let mesh = WithId::register((), &mut counter);
    let material = WithId::register((), &mut counter);
    let prim = Primitive::new(&mesh, &material);
    let table = PassBuffer::new();
    let mut pass = RenderPass::begin(table);
    if with_camera {
        pass.set_camera(Mat4Bits::from_words([0; 16]));
    }
    pass.draw_primitive(prim, Instance::identity()).unwrap();
    let (_table, plan) = pass.finish();
    (prim, plan)
}

#[test]
fn failed_camera_write_aborts_before_any_draw() {
    let (_prim, plan) = one_flush_plan(true);
    assert_eq!(plan.flushes.len(), 1);
    let outcomes = vec![WriteOutcome::Failed(WriteErrorKind::MapFailed), WriteOutcome::Done];
    let err = conclude(&plan, &outcomes).unwrap_err();
    assert_eq!(
        err,
        FrameError { target: WriteTarget::CameraBuffer, kind: WriteErrorKind::MapFailed }
    );
}

#[test]
fn failed_batch_write_names_the_drawable() {
    let (prim, plan) = one_flush_plan(true);
    let outcomes = vec![WriteOutcome::Done, WriteOutcome::Failed(WriteErrorKind::Cancelled)];
    let err = conclude(&plan, &outcomes).unwrap_err();
    assert_eq!(
        err,
        FrameError { target: WriteTarget::Batch(prim), kind: WriteErrorKind::Cancelled }
    );
}

#[test]
fn all_writes_landed_yields_one_draw_per_flush() {
    let (prim, plan) = one_flush_plan(false);
    let draws = conclude(&plan, &vec![WriteOutcome::Done]).unwrap();
    assert_eq!(draws.len(), 1);
    assert_eq!(draws[0].drawable, prim);
    assert_eq!(draws[0].count, 1);
}

#[test]
fn two_failures_report_the_first() {
    let (_prim, plan) = one_flush_plan(true);
    let outcomes = vec![
        WriteOutcome::Failed(WriteErrorKind::SendFailed),
        WriteOutcome::Failed(WriteErrorKind::MapFailed),
    ];
    let err = conclude(&plan, &outcomes).unwrap_err();
    assert_eq!(
        err,
        FrameError { target: WriteTarget::CameraBuffer, kind: WriteErrorKind::SendFailed }
    );
}
