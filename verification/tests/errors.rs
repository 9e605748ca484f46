use savant_core::attribute::{AttributeBuilder, AttributeBuilderError};
use savant_core::batch::VideoFrameBatch;
use savant_core::bbox::BBox;
use savant_core::content::{ContentError, VideoFrameContent, VideoFrameTranscodingMethod};
use savant_core::errors::{FrameError, PipelineError, UdfError};
use savant_core::float_value::FloatValue;
use savant_core::frame::VideoFrame;
use savant_core::frame_update::{IdCollisionResolutionPolicy, VideoFrameUpdate};
use savant_core::match_query::map_udf;
use savant_core::object::VideoObject;
use savant_core::pipeline::{VideoPipeline, VideoPipelineStagePayloadType};
use savant_core::udf::UdfRegistry;

fn fv(x: f64) -> FloatValue {
    FloatValue::from_bits(x.to_bits())
}

fn plain_frame() -> VideoFrame {
    VideoFrame::new(
        "s",
        "30/1",
        640,
        480,
        VideoFrameContent::none(),
        VideoFrameTranscodingMethod::Copy,
        None,
        None,
        (1, 1000000),
        0,
        None,
        None,
    )
}

fn plain_object(id: i64) -> VideoObject {
    VideoObject::new(
        id,
        "ns".to_string(),
        "label".to_string(),
        BBox::new(fv(0.0), fv(0.0), fv(1.0), fv(1.0), None),
        None,
        None,
        None,
    )
    .unwrap()
}

#[test]
fn test_pipeline_error_variants() {
    let mut p = VideoPipeline::new();
    p.add_stage("frames", VideoPipelineStagePayloadType::Frame)
        .unwrap();
    p.add_stage("batches", VideoPipelineStagePayloadType::Batch)
        .unwrap();
    assert_eq!(
        p.add_stage("frames", VideoPipelineStagePayloadType::Batch),
        Err(PipelineError::DuplicateStage)
    );
    assert_eq!(
        p.add_frame("missing", plain_frame()),
        Err(PipelineError::StageNotFound)
    );
    assert_eq!(
        p.add_frame("batches", plain_frame()),
        Err(PipelineError::StageTypeMismatch)
    );
    assert_eq!(p.del("frames", 5), Err(PipelineError::PayloadNotFound));

    let fid = p.add_frame("frames", plain_frame()).unwrap();
    let bid = p.add_batch("batches", VideoFrameBatch::new()).unwrap();
    // a frame asked for as a batch, and the other way round
    assert_eq!(
        p.get_batch("frames", fid).err(),
        Some(PipelineError::PayloadKindMismatch)
    );
    assert_eq!(
        p.get_independent_frame("batches", bid).err(),
        Some(PipelineError::PayloadKindMismatch)
    );
    assert_eq!(
        p.get_batched_frame("batches", bid, 1).err(),
        Some(PipelineError::FrameNotFound)
    );
    assert_eq!(
        p.move_as_is("frames", "batches", vec![fid]),
        Err(PipelineError::StageTypeMismatch)
    );

    // an update that collides on an object id is reported by apply_updates
    let mut f = plain_frame();
    f.add_object(plain_object(1), IdCollisionResolutionPolicy::Error)
        .unwrap();
    let fid2 = p.add_frame("frames", f).unwrap();
    let mut u = VideoFrameUpdate::new();
    u.add_object(&plain_object(1));
    p.add_frame_update("frames", fid2, u).unwrap();
    assert_eq!(
        p.apply_updates("frames", fid2),
        Err(PipelineError::UpdateFailed(FrameError::ObjectIdCollision))
    );
    // the pending list was drained even though the update failed
    assert_eq!(p.apply_updates("frames", fid2), Ok(()));
}

#[test]
fn test_frame_error_variants() {
    let mut f = plain_frame();
    f.add_object(plain_object(1), IdCollisionResolutionPolicy::Error)
        .unwrap();
    assert_eq!(
        f.add_object(plain_object(1), IdCollisionResolutionPolicy::Error),
        Err(FrameError::ObjectIdCollision)
    );
    assert!(f
        .add_object(plain_object(1), IdCollisionResolutionPolicy::Overwrite)
        .is_ok());
    assert_eq!(
        VideoObject::new(
            9,
            "ns".to_string(),
            "l".to_string(),
            BBox::new(fv(0.0), fv(0.0), fv(1.0), fv(1.0), None),
            None,
            Some(4),
            None,
        )
        .err(),
        Some(FrameError::TrackInfoMismatch)
    );
    assert_eq!(f.set_parent_by_id(1, 77), Err(FrameError::ObjectNotFound));
}

#[test]
fn test_udf_and_builder_and_content_errors() {
    let reg = UdfRegistry::new();
    let objs = vec![plain_object(1)];
    assert_eq!(
        map_udf(&objs, "nobody", &reg).err(),
        Some(UdfError::NotRegistered)
    );
    assert_eq!(
        AttributeBuilder::default().build().err(),
        Some(AttributeBuilderError::MissingNamespace)
    );
    assert_eq!(
        AttributeBuilder::default()
            .namespace("ns".to_string())
            .build()
            .err(),
        Some(AttributeBuilderError::MissingName)
    );
    let content = VideoFrameContent::none();
    assert_eq!(content.get_data().err(), Some(ContentError::NotInternal));
    assert_eq!(content.get_method().err(), Some(ContentError::NotExternal));
    let inline = VideoFrameContent::internal(vec![1, 2, 3]);
    assert_eq!(inline.get_data().unwrap(), &vec![1, 2, 3]);
}
