use savant_core::attribute::{AttributeBuilder, AttributeValue};
use savant_core::bbox::BBox;
use savant_core::content::{VideoFrameContent, VideoFrameTranscodingMethod};
use savant_core::float_value::FloatValue;
use savant_core::frame::VideoFrame;
use savant_core::frame_update::IdCollisionResolutionPolicy;
use savant_core::match_query::{
    batch_filter, batch_partition, filter, foreach_udf, map_udf, partition, FloatExpression,
    IntExpression, MatchQuery, StringExpression,
};
use savant_core::object::VideoObject;
use savant_core::udf::{
    is_plugin_function_registered, register_plugin_function, UdfRegistry, UserFunctionType,
};

fn fv(x: f64) -> FloatValue {
    FloatValue::from_bits(x.to_bits())
}

fn gen_object(id: i64) -> VideoObject {
    let mut o = VideoObject::new(
        id,
        "peoplenet".to_string(),
        "face".to_string(),
        BBox::new(fv(1.0), fv(2.0), fv(10.0), fv(20.0), None),
        Some(fv(0.5)),
        Some(id),
        Some(BBox::new(fv(100.0), fv(200.0), fv(10.0), fv(20.0), None)),
    )
    .unwrap();
    o.set_attribute(
        AttributeBuilder::default()
            .namespace("some".to_string())
            .name("attribute".to_string())
            .hint(None)
            .values(vec![AttributeValue::string("value".to_string(), None)])
            .build()
            .unwrap(),
    );
    o
}

fn gen_frame() -> VideoFrame {
    let mut f = VideoFrame::new(
        "test",
        "test",
        0,
        0,
        VideoFrameContent::none(),
        VideoFrameTranscodingMethod::Copy,
        None,
        None,
        (1, 1000000),
        0,
        None,
        None,
    );
    for id in [0i64, 1, 2] {
        f.add_object(gen_object(id), IdCollisionResolutionPolicy::Error)
            .unwrap();
    }
    f
}

#[test]
fn test_int() {
    let eq_q = IntExpression::EQ(1);
    assert!(eq_q.execute(&1));

    let ne_q = IntExpression::NE(1);
    assert!(ne_q.execute(&2));

    let gt_q = IntExpression::GT(1);
    assert!(gt_q.execute(&2));

    let lt_q = IntExpression::LT(1);
    assert!(lt_q.execute(&0));

    let ge_q = IntExpression::GE(1);
    assert!(ge_q.execute(&1));
    assert!(ge_q.execute(&2));

    let le_q = IntExpression::LE(1);
    assert!(le_q.execute(&1));
    assert!(le_q.execute(&0));

    let between_q = IntExpression::Between(1, 5);
    assert!(between_q.execute(&2));
    assert!(between_q.execute(&1));
    assert!(between_q.execute(&5));
    assert!(!between_q.execute(&6));

    let one_of_q = IntExpression::OneOf(vec![1, 2, 3]);
    assert!(one_of_q.execute(&2));
    assert!(!one_of_q.execute(&4));
}

#[test]
fn test_float() {
    let eq_q = FloatExpression::EQ(fv(1.0));
    assert!(eq_q.execute(&fv(1.0)));

    let ne_q = FloatExpression::NE(fv(1.0));
    assert!(ne_q.execute(&fv(2.0)));

    let gt_q = FloatExpression::GT(fv(1.0));
    assert!(gt_q.execute(&fv(2.0)));

    let lt_q = FloatExpression::LT(fv(1.0));
    assert!(lt_q.execute(&fv(0.0)));

    let ge_q = FloatExpression::GE(fv(1.0));
    assert!(ge_q.execute(&fv(1.0)));
    assert!(ge_q.execute(&fv(2.0)));

    let le_q = FloatExpression::LE(fv(1.0));
    assert!(le_q.execute(&fv(1.0)));
    assert!(le_q.execute(&fv(0.0)));

    let between_q = FloatExpression::Between(fv(1.0), fv(5.0));
    assert!(between_q.execute(&fv(2.0)));
    assert!(between_q.execute(&fv(1.0)));
    assert!(between_q.execute(&fv(5.0)));
    assert!(!between_q.execute(&fv(6.0)));

    let one_of_q = FloatExpression::OneOf(vec![fv(1.0), fv(2.0), fv(3.0)]);
    assert!(one_of_q.execute(&fv(2.0)));
    assert!(!one_of_q.execute(&fv(4.0)));
}

#[test]
fn test_string() {
    let eq_q = StringExpression::EQ("test".to_string());
    assert!(eq_q.execute("test"));

    let ne_q = StringExpression::NE("test".to_string());
    assert!(ne_q.execute("test2"));

    let contains_q = StringExpression::Contains("test".to_string());
    assert!(contains_q.execute("testimony"));
    assert!(contains_q.execute("supertest"));

    let not_contains_q = StringExpression::NotContains("test".to_string());
    assert!(not_contains_q.execute("apple"));

    let starts_with_q = StringExpression::StartsWith("test".to_string());
    assert!(starts_with_q.execute("testing"));
    assert!(!starts_with_q.execute("tes"));

    let ends_with_q = StringExpression::EndsWith("test".to_string());
    assert!(ends_with_q.execute("gettest"));
    assert!(!ends_with_q.execute("supertes"));

    let one_of_q = StringExpression::OneOf(vec![
        "test".to_string(),
        "me".to_string(),
        "now".to_string(),
    ]);
    assert!(one_of_q.execute("me"));
    assert!(one_of_q.execute("now"));
    assert!(!one_of_q.execute("random"));
}

#[test]
fn test_float_ieee_semantics() {
    let nan = fv(f64::NAN);
    let zero = fv(0.0);
    let neg_zero = fv(-0.0);
    assert_eq!(FloatExpression::EQ(nan).execute(&nan), (f64::NAN == f64::NAN));
    assert_eq!(FloatExpression::NE(nan).execute(&nan), (f64::NAN != f64::NAN));
    assert_eq!(FloatExpression::LT(nan).execute(&zero), (0.0 < f64::NAN));
    assert_eq!(FloatExpression::EQ(zero).execute(&neg_zero), (-0.0 == 0.0));
    let samples = [-3.5f64, -0.0, 0.0, 0.5, 1.0, 2.5, f64::INFINITY, f64::NEG_INFINITY];
    for a in samples {
        for b in samples {
            assert_eq!(FloatExpression::EQ(fv(b)).execute(&fv(a)), a == b);
            assert_eq!(FloatExpression::LT(fv(b)).execute(&fv(a)), a < b);
            assert_eq!(FloatExpression::LE(fv(b)).execute(&fv(a)), a <= b);
            assert_eq!(FloatExpression::GT(fv(b)).execute(&fv(a)), a > b);
            assert_eq!(FloatExpression::GE(fv(b)).execute(&fv(a)), a >= b);
        }
    }
}

#[test]
fn test_query() {
    let reg = UdfRegistry::new();
    let expr = MatchQuery::Id(IntExpression::EQ(1));
    assert!(expr.execute_with_new_context(&gen_object(1), &reg));

    let expr = MatchQuery::Creator(StringExpression::EQ("peoplenet".to_string()));
    assert!(expr.execute_with_new_context(&gen_object(1), &reg));

    let expr = MatchQuery::Label(StringExpression::StartsWith("face".to_string()));
    assert!(expr.execute_with_new_context(&gen_object(1), &reg));

    let expr = MatchQuery::Confidence(FloatExpression::GT(fv(0.4)));
    assert!(expr.execute_with_new_context(&gen_object(1), &reg));

    let expr = MatchQuery::ConfidenceDefined;
    assert!(expr.execute_with_new_context(&gen_object(1), &reg));

    let expr = MatchQuery::ParentDefined;
    assert!(!expr.execute_with_new_context(&gen_object(1), &reg));

    let expr = MatchQuery::AttributeDefined("some".to_string(), "attribute".to_string());
    let o = gen_object(1);
    assert!(expr.execute_with_new_context(&o, &reg));

    let mut f = gen_frame();
    f.create_object(
        "peoplenet",
        "face",
        None,
        BBox::new(fv(1.0), fv(2.0), fv(10.0), fv(20.0), None),
        Some(fv(0.5)),
        None,
        None,
        vec![],
    )
    .unwrap();
    let parent_object_id = 13;
    f.add_object(gen_object(parent_object_id), IdCollisionResolutionPolicy::Error)
        .unwrap();
    let object_id = 1;
    f.set_parent_by_id(object_id, parent_object_id).unwrap();

    let expr = MatchQuery::ParentId(IntExpression::EQ(13));
    let matched = f.access_objects(&expr, &reg);
    assert_eq!(matched.len(), 1);
    assert_eq!(matched[0].get_id(), object_id);

    let expr = MatchQuery::ParentCreator(StringExpression::EQ("peoplenet".to_string()));
    assert_eq!(f.access_objects(&expr, &reg).len(), 1);

    let expr = MatchQuery::ParentLabel(StringExpression::EQ("face".to_string()));
    assert_eq!(f.access_objects(&expr, &reg).len(), 1);

    let expr = MatchQuery::BoxXCenter(FloatExpression::GT(fv(0.0)));
    assert!(expr.execute_with_new_context(&gen_object(1), &reg));

    let expr = MatchQuery::BoxYCenter(FloatExpression::GT(fv(1.0)));
    assert!(expr.execute_with_new_context(&gen_object(1), &reg));

    let expr = MatchQuery::BoxWidth(FloatExpression::GT(fv(5.0)));
    assert!(expr.execute_with_new_context(&gen_object(1), &reg));

    let expr = MatchQuery::BoxHeight(FloatExpression::GT(fv(10.0)));
    assert!(expr.execute_with_new_context(&gen_object(1), &reg));

    let expr = MatchQuery::BoxAngleDefined;
    assert!(!expr.execute_with_new_context(&gen_object(1), &reg));

    let mut object = gen_object(1);
    object.set_bbox(BBox::new(fv(1.0), fv(2.0), fv(10.0), fv(20.0), Some(fv(30.0))));
    assert!(expr.execute_with_new_context(&object, &reg));

    let expr = MatchQuery::BoxAngle(FloatExpression::GT(fv(20.0)));
    assert!(expr.execute_with_new_context(&object, &reg));

    let expr = MatchQuery::TrackDefined;
    assert!(expr.execute_with_new_context(&object, &reg));
}

#[test]
fn test_logical_functions() {
    let reg = UdfRegistry::new();
    let expr = MatchQuery::And(vec![
        MatchQuery::Id(IntExpression::EQ(1)),
        MatchQuery::Creator(StringExpression::EQ("peoplenet".to_string())),
        MatchQuery::Confidence(FloatExpression::GT(fv(0.4))),
    ]);
    assert!(expr.execute_with_new_context(&gen_object(1), &reg));

    let expr = MatchQuery::Or(vec![
        MatchQuery::Id(IntExpression::EQ(10)),
        MatchQuery::Creator(StringExpression::EQ("peoplenet".to_string())),
    ]);
    assert!(expr.execute_with_new_context(&gen_object(1), &reg));

    let expr = MatchQuery::Not(Box::new(MatchQuery::Id(IntExpression::EQ(2))));
    assert!(expr.execute_with_new_context(&gen_object(1), &reg));
}

#[test]
fn test_children_expression() {
    let reg = UdfRegistry::new();
    let mut f = gen_frame();
    f.set_parent_by_id(1, 0).unwrap();
    f.set_parent_by_id(2, 0).unwrap();
    let o = f.access_objects(
        &MatchQuery::WithChildren(Box::new(MatchQuery::Idle), IntExpression::EQ(2)),
        &reg,
    );
    assert_eq!(o.len(), 1);
    assert_eq!(o[0].get_id(), 0);
}

#[test]
fn test_filter() {
    let reg = UdfRegistry::new();
    let f = gen_frame();
    let objects = f.access_objects(&MatchQuery::Idle, &reg);
    let filtered = filter(&objects, &MatchQuery::Id(IntExpression::EQ(1)), &reg);
    assert_eq!(filtered.len(), 1);
}

#[test]
fn test_partition() {
    let reg = UdfRegistry::new();
    let f = gen_frame();
    let objects = f.access_objects(&MatchQuery::Idle, &reg);
    let (matching, others) = partition(&objects, &MatchQuery::Id(IntExpression::EQ(1)), &reg);
    assert_eq!(matching.len(), 1);
    assert_eq!(others.len(), 2);
}

#[test]
fn test_filter_preserves_order() {
    let reg = UdfRegistry::new();
    let f = gen_frame();
    let objects = f.access_objects(&MatchQuery::Idle, &reg);
    let q = MatchQuery::Id(IntExpression::OneOf(vec![0, 2]));
    let filtered = filter(&objects, &q, &reg);
    assert_eq!(filtered.len(), 2);
    assert_eq!(filtered[0].get_id(), 0);
    assert_eq!(filtered[1].get_id(), 2);
    let (a, b) = partition(&objects, &q, &reg);
    assert_eq!(a.len() + b.len(), objects.len());
    assert_eq!(b[0].get_id(), 1);
}

#[test]
fn test_batch_operators() {
    let reg = UdfRegistry::new();
    let f = gen_frame();
    let objects = f.access_objects(&MatchQuery::Idle, &reg);
    let objects2 = f.access_objects(&MatchQuery::Idle, &reg);
    let batch = vec![(7i64, objects), (8i64, objects2)];
    let q = MatchQuery::Id(IntExpression::EQ(1));
    let kept = batch_filter(&batch, &q, &reg);
    assert_eq!(kept.len(), 2);
    assert_eq!(kept[0].0, 7);
    assert_eq!(kept[0].1.len(), 1);
    let none_q = MatchQuery::Id(IntExpression::EQ(99));
    assert_eq!(batch_filter(&batch, &none_q, &reg).len(), 0);
    let (m, o) = batch_partition(batch, &q, &reg);
    assert_eq!(m.len(), 2);
    assert_eq!(o.len(), 2);
    assert_eq!(m[1].1.len(), 1);
    assert_eq!(o[1].1.len(), 2);
}

#[test]
fn test_udf() {
    let mut reg = UdfRegistry::new();
    let udf_name = "libsavant_plugin@unary_op_even";
    register_plugin_function(
        &mut reg,
        "libsavant_plugin",
        "unary_op_even",
        UserFunctionType::ObjectPredicate,
        udf_name,
    )
    .unwrap();
    let f = gen_frame();
    let objects = f.access_objects(
        &MatchQuery::UserDefinedObjectPredicate(
            "libsavant_plugin".to_string(),
            "unary_op_even".to_string(),
        ),
        &reg,
    );
    assert_eq!(objects.len(), 2, "Only even objects must be returned");
}

#[test]
fn test_map_udf() {
    let mut reg = UdfRegistry::new();
    let f = gen_frame();
    let objects = f.access_objects(&MatchQuery::Idle, &reg);

    let udf_name = "sample.map_modifier";
    if !is_plugin_function_registered(&reg, udf_name) {
        register_plugin_function(
            &mut reg,
            "libsavant_plugin",
            "map_modifier",
            UserFunctionType::ObjectMapModifier,
            udf_name,
        )
        .unwrap();
    }

    let new_objects = map_udf(&objects, "sample.map_modifier", &reg).unwrap();
    assert_eq!(new_objects.len(), 3);
    for o in new_objects {
        assert!(
            o.get_label().starts_with("modified"),
            "Label must be modified"
        );
    }
}

#[test]
fn test_foreach_udf() {
    let mut reg = UdfRegistry::new();
    let f = gen_frame();
    let mut objects = f.access_objects(&MatchQuery::Idle, &reg);

    let udf_name = "sample.inplace_modifier";
    if !is_plugin_function_registered(&reg, udf_name) {
        register_plugin_function(
            &mut reg,
            "libsavant_plugin",
            "inplace_modifier",
            UserFunctionType::ObjectInplaceModifier,
            udf_name,
        )
        .unwrap();
    }

    foreach_udf(&mut objects, "sample.inplace_modifier", &reg);

    for o in objects {
        assert!(
            o.get_label().starts_with("modified"),
            "Label must be modified"
        );
    }
}

#[test]
fn test_object_matches_in_frame() {
    let reg = UdfRegistry::new();
    let mut f = gen_frame();
    f.set_parent_by_id(1, 0).unwrap();
    let q = MatchQuery::ParentId(IntExpression::EQ(0));
    assert_eq!(f.object_matches(&q, 1, &reg), Some(true));
    assert_eq!(f.object_matches(&q, 2, &reg), Some(false));
    assert_eq!(f.object_matches(&q, 9, &reg), None);
}

#[test]
fn test_batch_foreach_modifies_in_place() {
    let mut reg = UdfRegistry::new();
    register_plugin_function(
        &mut reg,
        "p",
        "inplace_modifier",
        UserFunctionType::ObjectInplaceModifier,
        "p@inplace_modifier",
    )
    .unwrap();
    let f = gen_frame();
    let objects = f.access_objects(&MatchQuery::Idle, &reg);
    let mut batch = vec![(5i64, objects)];
    let results = savant_core::match_query::batch_foreach_udf(
        &mut batch,
        "p@inplace_modifier",
        &reg,
    );
    assert_eq!(results.len(), 1);
    assert_eq!(results[0].0, 5);
    assert!(results[0].1.iter().all(|r| r.is_ok()));
    assert_eq!(batch[0].0, 5);
    assert!(batch[0]
        .1
        .iter()
        .all(|o| o.get_label().starts_with("modified")));
    // an unregistered name changes nothing
    let mut batch2 = vec![(6i64, f.access_objects(&MatchQuery::Idle, &reg))];
    let results2 =
        savant_core::match_query::batch_foreach_udf(&mut batch2, "nobody", &reg);
    assert!(results2[0].1.iter().all(|r| r.is_err()));
    assert!(batch2[0].1.iter().all(|o| !o.get_label().starts_with("modified")));
}

#[test]
fn test_udf_registration_is_idempotent() {
    let mut reg = UdfRegistry::new();
    register_plugin_function(
        &mut reg,
        "p",
        "unary_op_even",
        UserFunctionType::ObjectPredicate,
        "p@unary_op_even",
    )
    .unwrap();
    assert!(is_plugin_function_registered(&reg, "p@unary_op_even"));
    register_plugin_function(
        &mut reg,
        "p",
        "unary_op_even",
        UserFunctionType::ObjectPredicate,
        "p@unary_op_even",
    )
    .unwrap();
    assert!(register_plugin_function(
        &mut reg,
        "p",
        "no_such_symbol",
        UserFunctionType::ObjectPredicate,
        "p@no_such_symbol"
    )
    .is_err());
    assert!(register_plugin_function(
        &mut reg,
        "p",
        "map_modifier",
        UserFunctionType::ObjectPredicate,
        "p@map_modifier"
    )
    .is_err());
}
