use savant_core::attribute::{AttributeBuilder, AttributeValue, Intersection, IntersectionKind};
use savant_core::batch::VideoFrameBatch;
use savant_core::bbox::{BBox, Point};
use savant_core::content::{VideoFrameContent, VideoFrameTranscodingMethod};
use savant_core::float_value::FloatValue;
use savant_core::frame::VideoFrame;
use savant_core::frame_update::VideoFrameUpdate;
use savant_core::object::VideoObject;
use savant_core::pipeline::{VideoPipeline, VideoPipelineStagePayloadType};

fn fv(x: f64) -> FloatValue {
    FloatValue::from_bits(x.to_bits())
}

fn zero_box() -> BBox {
    BBox::new(fv(0.0), fv(0.0), fv(0.0), fv(0.0), None)
}

fn gen_object(id: i64, namespace: &str, label: &str) -> VideoObject {
    VideoObject::new(
        id,
        namespace.to_string(),
        label.to_string(),
        zero_box(),
        None,
        None,
        None,
    )
    .unwrap()
}

fn gen_frame() -> VideoFrame {
    let mut f = VideoFrame::new(
        "test",
        "test",
        0,
        0,
        VideoFrameContent::none(),
        VideoFrameTranscodingMethod::Copy,
        None,
        None,
        (1, 1000000),
        0,
        None,
        None,
    );
    f.add_object(
        gen_object(0, "test", "test2"),
        savant_core::frame_update::IdCollisionResolutionPolicy::Error,
    )
    .unwrap();
    f.add_object(
        gen_object(1, "test2", "test"),
        savant_core::frame_update::IdCollisionResolutionPolicy::Error,
    )
    .unwrap();
    f.add_object(
        gen_object(2, "test2", "test2"),
        savant_core::frame_update::IdCollisionResolutionPolicy::Error,
    )
    .unwrap();
    f.set_attribute(
        AttributeBuilder::default()
            .creator("system".to_string())
            .name("test".to_string())
            .hint(None)
            .hint(Some("test".to_string()))
            .values(vec![AttributeValue::string("1".to_string(), None)])
            .build()
            .unwrap(),
    );
    f.set_attribute(
        AttributeBuilder::default()
            .creator("system2".to_string())
            .name("test2".to_string())
            .hint(None)
            .values(vec![AttributeValue::string("2".to_string(), None)])
            .build()
            .unwrap(),
    );
    f.set_attribute(
        AttributeBuilder::default()
            .creator("system".to_string())
            .name("test2".to_string())
            .hint(Some("test".to_string()))
            .values(vec![AttributeValue::string("3".to_string(), None)])
            .build()
            .unwrap(),
    );
    f.set_attribute(
        AttributeBuilder::default()
            .creator("test".to_string())
            .name("test".to_string())
            .hint(Some("hint".to_string()))
            .values(vec![
                AttributeValue::bytes(vec![8, 3, 8, 8], vec![0u8; 192], None),
                AttributeValue::integers(vec![0, 1, 2, 3, 4, 5], None),
                AttributeValue::string("incoming".to_string(), Some(fv(0.56))),
                AttributeValue::strings(vec!["abc".to_string(), "cde".to_string()], None),
                AttributeValue::string("outgoing".to_string(), Some(fv(0.64))),
                AttributeValue::none(),
                AttributeValue::bbox(zero_box(), None),
                AttributeValue::bboxes(vec![zero_box(), zero_box()], None),
                AttributeValue::float(fv(0.0), None),
                AttributeValue::floats(
                    vec![fv(0.0), fv(0.0), fv(0.0), fv(0.0), fv(0.0), fv(0.0)],
                    None,
                ),
                AttributeValue::points(
                    vec![Point::new(fv(0.0), fv(0.0)), Point::new(fv(0.0), fv(0.0))],
                    None,
                ),
                AttributeValue::intersection(
                    Intersection::new(
                        IntersectionKind::Enter,
                        vec![(0, Some("x1".to_string())), (1, Some("y1".to_string()))],
                    ),
                    None,
                ),
            ])
            .build()
            .unwrap(),
    );
    f
}

fn create_pipeline() -> VideoPipeline {
    let mut pipeline = VideoPipeline::new();
    pipeline
        .add_stage("input", VideoPipelineStagePayloadType::Frame)
        .unwrap();
    pipeline
        .add_stage("proc1", VideoPipelineStagePayloadType::Batch)
        .unwrap();
    pipeline
        .add_stage("proc2", VideoPipelineStagePayloadType::Batch)
        .unwrap();
    pipeline
        .add_stage("output", VideoPipelineStagePayloadType::Frame)
        .unwrap();
    pipeline
}

fn get_update() -> VideoFrameUpdate {
    let mut update = VideoFrameUpdate::new();
    update.add_attribute(
        &AttributeBuilder::default()
            .namespace("update".to_string())
            .name("attribute".to_string())
            .hint(None)
            .hint(Some("test".to_string()))
            .values(vec![AttributeValue::string("1".to_string(), None)])
            .build()
            .unwrap(),
    );
    update
}

#[test]
fn test_new_pipeline() {
    let pipeline = create_pipeline();
    assert_eq!(pipeline.id_counter, 0);
    assert_eq!(pipeline.stage_count(), 4);
}

#[test]
fn test_add_duplicate_stage() {
    let mut pipeline = create_pipeline();
    assert!(pipeline
        .add_stage("input", VideoPipelineStagePayloadType::Frame)
        .is_err());
}

#[test]
fn test_get_stage() {
    let pipeline = create_pipeline();
    assert!(pipeline.get_stage("input").is_some());
    assert!(pipeline.get_stage("proc1").is_some());
    assert!(pipeline.get_stage("proc2").is_some());
    assert!(pipeline.get_stage("output").is_some());
    assert!(pipeline.get_stage("unknown").is_none());
}

#[test]
fn test_get_stage_mut() {
    let mut pipeline = create_pipeline();
    assert!(pipeline.get_stage_mut("input").is_some());
    assert!(pipeline.get_stage_mut("proc1").is_some());
    assert!(pipeline.get_stage_mut("proc2").is_some());
    assert!(pipeline.get_stage_mut("output").is_some());
    assert!(pipeline.get_stage_mut("unknown").is_none());
}

#[test]
fn test_get_stage_type() {
    let pipeline = create_pipeline();
    assert!(matches!(
        pipeline.get_stage_type("input"),
        Some(VideoPipelineStagePayloadType::Frame)
    ));
    assert!(matches!(
        pipeline.get_stage_type("proc1"),
        Some(VideoPipelineStagePayloadType::Batch)
    ));
}

#[test]
fn test_add_del_frame() {
    let mut pipeline = create_pipeline();
    let id = pipeline.add_frame("input", gen_frame()).unwrap();
    assert!(pipeline.add_frame("proc1", gen_frame()).is_err());

    assert!(pipeline.del("proc1", id).is_err());
    pipeline.del("input", id).unwrap();
}

#[test]
fn test_add_del_batch() {
    let mut pipeline = create_pipeline();
    let id = pipeline.add_batch("proc1", VideoFrameBatch::new()).unwrap();
    assert!(pipeline.add_batch("input", VideoFrameBatch::new()).is_err());

    assert!(pipeline.del("input", id).is_err());
    pipeline.del("proc1", id).unwrap();
}

#[test]
fn test_frame_to_batch() {
    let mut pipeline = create_pipeline();
    let id = pipeline.add_frame("input", gen_frame()).unwrap();
    let batch_id = pipeline
        .move_and_pack_frames("input", "proc1", vec![id])
        .unwrap();

    assert!(pipeline.get_independent_frame("input", id).is_err());

    assert!(pipeline.get_batch("proc1", batch_id).is_ok());
    assert!(pipeline.get_batched_frame("proc1", batch_id, id).is_ok());
}

#[test]
fn test_batch_to_frame() {
    let mut pipeline = create_pipeline();
    let id = pipeline.add_frame("input", gen_frame()).unwrap();
    let batch_id = pipeline
        .move_and_pack_frames("input", "proc2", vec![id])
        .unwrap();
    pipeline
        .move_and_unpack_batch("proc2", "output", batch_id)
        .unwrap();
    let _frame = pipeline.get_independent_frame("output", id).unwrap();
}

#[test]
fn test_batch_to_batch() {
    let mut pipeline = create_pipeline();
    let id = pipeline.add_frame("input", gen_frame()).unwrap();
    let batch_id = pipeline
        .move_and_pack_frames("input", "proc1", vec![id])
        .unwrap();
    pipeline.move_as_is("proc1", "proc2", vec![batch_id]).unwrap();
    let _batch = pipeline.get_batch("proc2", batch_id).unwrap();
    let _frame = pipeline.get_batched_frame("proc2", batch_id, id).unwrap();
}

#[test]
fn test_frame_to_frame() {
    let mut pipeline = create_pipeline();
    let id = pipeline.add_frame("input", gen_frame()).unwrap();
    pipeline.move_as_is("input", "output", vec![id]).unwrap();
    let _frame = pipeline.get_independent_frame("output", id).unwrap();
}

#[test]
fn test_frame_update() {
    let mut pipeline = create_pipeline();
    let id = pipeline.add_frame("input", gen_frame()).unwrap();
    let update = get_update();
    pipeline.add_frame_update("input", id, update).unwrap();
    pipeline.apply_updates("input", id).unwrap();
    let frame = pipeline.get_independent_frame("input", id).unwrap();
    frame.get_attribute("update", "attribute").unwrap();
}

#[test]
fn test_batch_update() {
    let mut pipeline = create_pipeline();
    let id = pipeline.add_frame("input", gen_frame()).unwrap();
    let batch_id = pipeline
        .move_and_pack_frames("input", "proc1", vec![id])
        .unwrap();
    let update = get_update();
    pipeline
        .add_batched_frame_update("proc1", batch_id, id, update)
        .unwrap();
    pipeline.apply_updates("proc1", batch_id).unwrap();
    let frame = pipeline.get_batched_frame("proc1", batch_id, id).unwrap();
    frame.get_attribute("update", "attribute").unwrap();
}

#[test]
fn test_id_counter_monotonic() {
    let mut pipeline = create_pipeline();
    let a = pipeline.add_frame("input", gen_frame()).unwrap();
    let b = pipeline.add_frame("input", gen_frame()).unwrap();
    assert!(b > a);
    let batch_id = pipeline
        .move_and_pack_frames("input", "proc1", vec![a, b])
        .unwrap();
    assert!(batch_id > b);
    let c = pipeline.add_batch("proc2", VideoFrameBatch::new()).unwrap();
    assert!(c > batch_id);
    assert_eq!(pipeline.id_counter, c);
}

#[test]
fn test_pack_unpack_preserves_pending_updates() {
    let mut pipeline = create_pipeline();
    let id = pipeline.add_frame("input", gen_frame()).unwrap();
    pipeline.add_frame_update("input", id, get_update()).unwrap();
    let batch_id = pipeline
        .move_and_pack_frames("input", "proc1", vec![id])
        .unwrap();
    pipeline
        .move_and_unpack_batch("proc1", "output", batch_id)
        .unwrap();
    // the frame is back under its old id, the update still queued
    let before = pipeline.get_independent_frame("output", id).unwrap();
    assert!(before.get_attribute("update", "attribute").is_none());
    pipeline.apply_updates("output", id).unwrap();
    let after = pipeline.get_independent_frame("output", id).unwrap();
    assert!(after.get_attribute("update", "attribute").is_some());
}

#[test]
fn test_create_object_allocates_fresh_ids() {
    let mut f = gen_frame();
    let id = f
        .create_object(
            "creator",
            "thing",
            None,
            zero_box(),
            Some(fv(0.5)),
            None,
            None,
            vec![],
        )
        .unwrap();
    assert_eq!(id, 3);
    assert!(f.get_object(3).is_some());
    let child = f
        .create_object("creator", "child", Some(id), zero_box(), None, None, None, vec![])
        .unwrap();
    assert_eq!(child, 4);
    // a parent that does not exist is refused
    assert!(f
        .create_object("creator", "x", Some(99), zero_box(), None, None, None, vec![])
        .is_err());
}

#[test]
fn test_set_parent_by_id_refuses_cycles() {
    let mut f = gen_frame();
    f.set_parent_by_id(0, 1).unwrap();
    f.set_parent_by_id(1, 2).unwrap();
    // closing the loop would make object 2 an ancestor of itself
    assert!(f.set_parent_by_id(2, 0).is_err());
    assert!(f.set_parent_by_id(7, 0).is_err());
    let children = f.get_children(1);
    assert_eq!(children.len(), 1);
    assert_eq!(children[0].get_id(), 0);
}
