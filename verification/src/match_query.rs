use vstd::prelude::*;

use crate::attribute::AttributeView;
use vstd::multiset::Multiset;
use crate::errors::UdfError;
use crate::float_value::{spec_float_le, spec_float_lt, FloatValue};
use crate::frame::VideoFrame;
use crate::idmap::IdMap;
use crate::object::{ObjectView, VideoObject};
use crate::strutil::{spec_contains_seq, spec_prefix_of, spec_suffix_of, str_contains,
    str_ends_with, str_eq, str_starts_with};
use crate::udf::{call_object_inplace_modifier, call_object_map_modifier, spec_modified_label,
    BuiltinFunction, UdfRegistry, UserFunctionType};

verus! {

broadcast use vstd::std_specs::vec::group_vec_axioms;

/// A predicate over a signed integer.
#[derive(Debug, PartialEq)]
pub enum IntExpression {
    EQ(i64),
    NE(i64),
    LT(i64),
    LE(i64),
    GT(i64),
    GE(i64),
    /// Inclusive on both ends.
    Between(i64, i64),
    OneOf(Vec<i64>),
}

pub open spec fn spec_int_matches(e: IntExpression, v: int) -> bool {
    match e {
        IntExpression::EQ(x) => v == x,
        IntExpression::NE(x) => v != x,
        IntExpression::LT(x) => v < x,
        IntExpression::LE(x) => v <= x,
        IntExpression::GT(x) => v > x,
        IntExpression::GE(x) => v >= x,
        IntExpression::Between(a, b) => a <= v <= b,
        IntExpression::OneOf(xs) => xs@.contains(v as i64) && i64::MIN <= v <= i64::MAX,
    }
}

impl IntExpression {
    #[verifier::loop_isolation(false)]
    pub fn execute(&self, o: &i64) -> (r: bool)
        ensures
            r == spec_int_matches(*self, *o as int),
    {
        match self {
            IntExpression::EQ(x) => *o == *x,
            IntExpression::NE(x) => *o != *x,
            IntExpression::LT(x) => *o < *x,
            IntExpression::LE(x) => *o <= *x,
            IntExpression::GT(x) => *o > *x,
            IntExpression::GE(x) => *o >= *x,
            IntExpression::Between(a, b) => *a <= *o && *o <= *b,
            IntExpression::OneOf(xs) => {
                let n = xs.len();
                let mut i: usize = 0;
                while i < n
                    invariant
                        n == xs@.len(),
                        i <= n,
                        forall|j: int| 0 <= j < i ==> #[trigger] xs@[j] != *o,
                    decreases n - i,
                {
                    if xs[i] == *o {
                        proof {
                            assert(xs@.contains(*o)) by {
                                assert(xs@[i as int] == *o);
                            }
                        }
                        return true;
                    }
                    i += 1;
                }
                proof {
                    if xs@.contains(*o) {
                        let w = choose|w: int| 0 <= w < xs@.len() && xs@[w] == *o;
                    }
                }
                false
            },
        }
    }

    /// The expression tested against a count that may exceed the signed
    /// range.
    #[verifier::loop_isolation(false)]
    pub fn execute_on_count(&self, c: usize) -> (r: bool)
        ensures
            r == spec_int_matches(*self, c as int),
    {
        match self {
            IntExpression::EQ(x) => *x >= 0 && c as u128 == *x as u128,
            IntExpression::NE(x) => !(*x >= 0 && c as u128 == *x as u128),
            IntExpression::LT(x) => *x > 0 && (c as u128) < *x as u128,
            IntExpression::LE(x) => *x >= 0 && c as u128 <= *x as u128,
            IntExpression::GT(x) => *x < 0 || c as u128 > *x as u128,
            IntExpression::GE(x) => *x <= 0 || c as u128 >= *x as u128,
            IntExpression::Between(a, b) => (*a <= 0 || c as u128 >= *a as u128) && (*b >= 0 && c
                as u128 <= *b as u128),
            IntExpression::OneOf(xs) => {
                let n = xs.len();
                let mut i: usize = 0;
                while i < n
                    invariant
                        n == xs@.len(),
                        i <= n,
                        forall|j: int| 0 <= j < i ==> #[trigger] xs@[j] as int != c as int,
                    decreases n - i,
                {
                    if xs[i] >= 0 && c as u128 == xs[i] as u128 {
                        proof {
                            assert(c as int == xs@[i as int] as int);
                            assert(i64::MIN <= c as int <= i64::MAX);
                            assert(xs@.contains(c as i64)) by {
                                assert(xs@[i as int] == c as i64);
                            }
                        }
                        return true;
                    }
                    i += 1;
                }
                proof {
                    if xs@.contains(c as i64) && i64::MIN <= c as int <= i64::MAX {
                        let w = choose|w: int| 0 <= w < xs@.len() && xs@[w] == c as i64;
                        assert(xs@[w] as int == c as int);
                    }
                }
                false
            },
        }
    }
}

/// A predicate over a floating-point quantity, compared at the bit
/// level with IEEE 754 semantics: a NaN is unequal under EQ, unequal
/// on every order test, and therefore equal under NE.
#[derive(Debug, PartialEq)]
pub enum FloatExpression {
    EQ(FloatValue),
    NE(FloatValue),
    LT(FloatValue),
    LE(FloatValue),
    GT(FloatValue),
    GE(FloatValue),
    /// Inclusive on both ends.
    Between(FloatValue, FloatValue),
    OneOf(Vec<FloatValue>),
}

pub open spec fn spec_float_matches(e: FloatExpression, v: FloatValue) -> bool {
    match e {
        FloatExpression::EQ(x) => crate::float_value::spec_float_eq(v, x),
        FloatExpression::NE(x) => !crate::float_value::spec_float_eq(v, x),
        FloatExpression::LT(x) => spec_float_lt(v, x),
        FloatExpression::LE(x) => spec_float_le(v, x),
        FloatExpression::GT(x) => spec_float_lt(x, v),
        FloatExpression::GE(x) => spec_float_le(x, v),
        FloatExpression::Between(a, b) => spec_float_le(a, v) && spec_float_le(v, b),
        FloatExpression::OneOf(xs) => exists|j: int|
            0 <= j < xs@.len() && crate::float_value::spec_float_eq(v, #[trigger] xs@[j]),
    }
}

impl FloatExpression {
    #[verifier::loop_isolation(false)]
    pub fn execute(&self, o: &FloatValue) -> (r: bool)
        ensures
            r == spec_float_matches(*self, *o),
    {
        match self {
            FloatExpression::EQ(x) => o.float_eq(x),
            FloatExpression::NE(x) => !o.float_eq(x),
            FloatExpression::LT(x) => o.float_lt(x),
            FloatExpression::LE(x) => o.float_le(x),
            FloatExpression::GT(x) => o.float_gt(x),
            FloatExpression::GE(x) => o.float_ge(x),
            FloatExpression::Between(a, b) => a.float_le(o) && o.float_le(b),
            FloatExpression::OneOf(xs) => {
                let n = xs.len();
                let mut i: usize = 0;
                while i < n
                    invariant
                        n == xs@.len(),
                        i <= n,
                        forall|j: int|
                            0 <= j < i ==> !crate::float_value::spec_float_eq(
                                *o,
                                #[trigger] xs@[j],
                            ),
                    decreases n - i,
                {
                    if o.float_eq(&xs[i]) {
                        proof {
                            assert(crate::float_value::spec_float_eq(*o, xs@[i as int]));
                        }
                        return true;
                    }
                    i += 1;
                }
                false
            },
        }
    }
}

/// A predicate over a string.
#[derive(Debug, PartialEq)]
pub enum StringExpression {
    EQ(String),
    NE(String),
    Contains(String),
    NotContains(String),
    StartsWith(String),
    EndsWith(String),
    OneOf(Vec<String>),
}

pub open spec fn spec_str_matches(e: StringExpression, v: Seq<char>) -> bool {
    match e {
        StringExpression::EQ(x) => v == x@,
        StringExpression::NE(x) => v != x@,
        StringExpression::Contains(x) => spec_contains_seq(v, x@),
        StringExpression::NotContains(x) => !spec_contains_seq(v, x@),
        StringExpression::StartsWith(x) => spec_prefix_of(v, x@),
        StringExpression::EndsWith(x) => spec_suffix_of(v, x@),
        StringExpression::OneOf(xs) => exists|j: int| 0 <= j < xs@.len() && (#[trigger] xs@[j])@
            == v,
    }
}

impl StringExpression {
    #[verifier::loop_isolation(false)]
    pub fn execute(&self, o: &str) -> (r: bool)
        ensures
            r == spec_str_matches(*self, o@),
    {
        match self {
            StringExpression::EQ(x) => str_eq(o, x.as_str()),
            StringExpression::NE(x) => !str_eq(o, x.as_str()),
            StringExpression::Contains(x) => str_contains(o, x.as_str()),
            StringExpression::NotContains(x) => !str_contains(o, x.as_str()),
            StringExpression::StartsWith(x) => str_starts_with(o, x.as_str()),
            StringExpression::EndsWith(x) => str_ends_with(o, x.as_str()),
            StringExpression::OneOf(xs) => {
                let n = xs.len();
                let mut i: usize = 0;
                while i < n
                    invariant
                        n == xs@.len(),
                        i <= n,
                        forall|j: int| 0 <= j < i ==> (#[trigger] xs@[j])@ != o@,
                    decreases n - i,
                {
                    if str_eq(o, xs[i].as_str()) {
                        proof {
                            assert((xs@[i as int])@ == o@);
                        }
                        return true;
                    }
                    i += 1;
                }
                false
            },
        }
    }
}

/// Which overlap ratio a box metric uses.
#[derive(Clone, Copy, Debug, PartialEq, Eq, Structural)]
pub enum BBoxMetricType {
    IoU,
    IoSelf,
    IoOther,
}

/// The composable predicate language over video objects. The geometry
/// metrics, the attribute JMES query and the embedded expression
/// evaluator need collaborators (floating-point arithmetic, an
/// expression engine) that the verified core does not carry; queries
/// that use them serialize and compose, but the evaluator here refuses
/// them, as `spec_supported` states.
#[derive(Debug, PartialEq)]
pub enum MatchQuery {
    Id(IntExpression),
    Creator(StringExpression),
    Label(StringExpression),
    ConfidenceDefined,
    Confidence(FloatExpression),
    TrackDefined,
    TrackId(IntExpression),
    TrackBoxXCenter(FloatExpression),
    TrackBoxYCenter(FloatExpression),
    TrackBoxWidth(FloatExpression),
    TrackBoxHeight(FloatExpression),
    TrackBoxArea(FloatExpression),
    TrackBoxWidthToHeightRatio(FloatExpression),
    TrackBoxAngleDefined,
    TrackBoxAngle(FloatExpression),
    TrackBoxMetric {
        other: (FloatValue, FloatValue, FloatValue, FloatValue, Option<FloatValue>),
        metric_type: BBoxMetricType,
        threshold_expr: FloatExpression,
    },
    ParentDefined,
    ParentId(IntExpression),
    ParentCreator(StringExpression),
    ParentLabel(StringExpression),
    WithChildren(Box<MatchQuery>, IntExpression),
    BoxXCenter(FloatExpression),
    BoxYCenter(FloatExpression),
    BoxWidth(FloatExpression),
    BoxHeight(FloatExpression),
    BoxArea(FloatExpression),
    BoxWidthToHeightRatio(FloatExpression),
    BoxAngleDefined,
    BoxAngle(FloatExpression),
    BoxMetric {
        other: (FloatValue, FloatValue, FloatValue, FloatValue, Option<FloatValue>),
        metric_type: BBoxMetricType,
        threshold_expr: FloatExpression,
    },
    AttributeDefined(String, String),
    AttributesEmpty,
    AttributesJMESQuery(String),
    And(Vec<MatchQuery>),
    Or(Vec<MatchQuery>),
    Not(Box<MatchQuery>),
    /// Matches everything.
    Idle,
    UserDefinedObjectPredicate(String, String),
    EvalExpr(String),
}

/// The canonical registry name of a user predicate.
pub open spec fn spec_canonical_name(plugin: Seq<char>, symbol: Seq<char>) -> Seq<char> {
    plugin + "@"@ + symbol
}

/// Builds the canonical registry name `plugin@symbol`.
pub fn canonical_udf_name(plugin: &str, symbol: &str) -> (r: String)
    ensures
        r@ == spec_canonical_name(plugin@, symbol@),
{
    let mut s: String = plugin.to_owned();
    vstd::string::StringExecFns::append(&mut s, "@");
    vstd::string::StringExecFns::append(&mut s, symbol);
    s
}

/// Whether the verified evaluator can decide `q`: no geometry metric,
/// no derived float arithmetic, no JMES query, no embedded expression,
/// and every user predicate registered as the single-object exemplar.
pub open spec fn spec_supported(
    q: MatchQuery,
    reg: Map<Seq<char>, (UserFunctionType, BuiltinFunction)>,
) -> bool
    decreases q,
{
    match q {
        MatchQuery::TrackBoxArea(_) => false,
        MatchQuery::TrackBoxWidthToHeightRatio(_) => false,
        MatchQuery::TrackBoxMetric { .. } => false,
        MatchQuery::BoxArea(_) => false,
        MatchQuery::BoxWidthToHeightRatio(_) => false,
        MatchQuery::BoxMetric { .. } => false,
        MatchQuery::AttributesJMESQuery(_) => false,
        MatchQuery::EvalExpr(_) => false,
        MatchQuery::And(v) => forall|i: int|
            0 <= i < v@.len() ==> spec_supported(#[trigger] v@[i], reg),
        MatchQuery::Or(v) => forall|i: int|
            0 <= i < v@.len() ==> spec_supported(#[trigger] v@[i], reg),
        MatchQuery::Not(b) => spec_supported(*b, reg),
        MatchQuery::WithChildren(b, _) => spec_supported(*b, reg),
        MatchQuery::UserDefinedObjectPredicate(p, s) => {
            let nm = spec_canonical_name(p@, s@);
            &&& reg.contains_key(nm)
            &&& reg[nm].0 == UserFunctionType::ObjectPredicate
            &&& reg[nm].1 == BuiltinFunction::UnaryOpEven
        },
        _ => true,
    }
}

/// The object of `ctx` filed under `id`.
pub open spec fn spec_find_ctx(ctx: Seq<(i64, VideoObject)>, id: i64) -> Option<ObjectView>
    decreases ctx.len(),
{
    if ctx.len() == 0 {
        None
    } else if ctx.last().0 == id {
        Some(ctx.last().1@)
    } else {
        spec_find_ctx(ctx.drop_last(), id)
    }
}

/// Whether `o` matches `q`, resolving parents and children against the
/// object table `ctx` of the owning frame; a detached object carries an
/// empty table. Unsupported leaves are false here and refused by the
/// evaluator's precondition.
pub open spec fn spec_matches(
    q: MatchQuery,
    o: ObjectView,
    ctx: Seq<(i64, VideoObject)>,
    reg: Map<Seq<char>, (UserFunctionType, BuiltinFunction)>,
) -> bool
    decreases q, 0int, 0int,
{
    match q {
        MatchQuery::Id(x) => spec_int_matches(x, o.id as int),
        MatchQuery::Creator(x) => spec_str_matches(x, o.namespace),
        MatchQuery::Label(x) => spec_str_matches(x, o.label),
        MatchQuery::ConfidenceDefined => o.confidence is Some,
        MatchQuery::Confidence(x) => match o.confidence {
            Some(c) => spec_float_matches(x, c),
            None => false,
        },
        MatchQuery::TrackDefined => o.track_id is Some,
        MatchQuery::TrackId(x) => match o.track_id {
            Some(t) => spec_int_matches(x, t as int),
            None => false,
        },
        MatchQuery::TrackBoxXCenter(x) => match o.track_box {
            Some(b) => spec_float_matches(x, b.xc),
            None => false,
        },
        MatchQuery::TrackBoxYCenter(x) => match o.track_box {
            Some(b) => spec_float_matches(x, b.yc),
            None => false,
        },
        MatchQuery::TrackBoxWidth(x) => match o.track_box {
            Some(b) => spec_float_matches(x, b.width),
            None => false,
        },
        MatchQuery::TrackBoxHeight(x) => match o.track_box {
            Some(b) => spec_float_matches(x, b.height),
            None => false,
        },
        MatchQuery::TrackBoxAngleDefined => match o.track_box {
            Some(b) => b.angle is Some,
            None => false,
        },
        MatchQuery::TrackBoxAngle(x) => match o.track_box {
            Some(b) => match b.angle {
                Some(a) => spec_float_matches(x, a),
                None => false,
            },
            None => false,
        },
        MatchQuery::ParentDefined => o.parent_id is Some,
        MatchQuery::ParentId(x) => match o.parent_id {
            Some(p) => match spec_find_ctx(ctx, p) {
                Some(po) => spec_int_matches(x, po.id as int),
                None => false,
            },
            None => false,
        },
        MatchQuery::ParentCreator(x) => match o.parent_id {
            Some(p) => match spec_find_ctx(ctx, p) {
                Some(po) => spec_str_matches(x, po.namespace),
                None => false,
            },
            None => false,
        },
        MatchQuery::ParentLabel(x) => match o.parent_id {
            Some(p) => match spec_find_ctx(ctx, p) {
                Some(po) => spec_str_matches(x, po.label),
                None => false,
            },
            None => false,
        },
        MatchQuery::WithChildren(b, n) => spec_int_matches(
            n,
            spec_count_children(ctx, *b, o.id, ctx, reg),
        ),
        MatchQuery::BoxXCenter(x) => spec_float_matches(x, o.detection_box.xc),
        MatchQuery::BoxYCenter(x) => spec_float_matches(x, o.detection_box.yc),
        MatchQuery::BoxWidth(x) => spec_float_matches(x, o.detection_box.width),
        MatchQuery::BoxHeight(x) => spec_float_matches(x, o.detection_box.height),
        MatchQuery::BoxAngleDefined => o.detection_box.angle is Some,
        MatchQuery::BoxAngle(x) => match o.detection_box.angle {
            Some(a) => spec_float_matches(x, a),
            None => false,
        },
        MatchQuery::AttributeDefined(ns, name) => o.attributes.contains_key((ns@, name@)),
        MatchQuery::AttributesEmpty => o.attributes == Map::<
            (Seq<char>, Seq<char>),
            AttributeView,
        >::empty(),
        MatchQuery::And(v) => forall|i: int|
            0 <= i < v@.len() ==> spec_matches(#[trigger] v@[i], o, ctx, reg),
        MatchQuery::Or(v) => exists|i: int|
            0 <= i < v@.len() && spec_matches(#[trigger] v@[i], o, ctx, reg),
        MatchQuery::Not(b) => !spec_matches(*b, o, ctx, reg),
        MatchQuery::Idle => true,
        MatchQuery::UserDefinedObjectPredicate(p, s) => {
            let nm = spec_canonical_name(p@, s@);
            if reg.contains_key(nm) && reg[nm].1 == BuiltinFunction::UnaryOpEven {
                o.id % 2 == 0
            } else {
                false
            }
        },
        _ => false,
    }
}

/// How many objects of `entries` are direct children of `oid` and match
/// `q` against the full table `ctx`.
pub open spec fn spec_count_children(
    entries: Seq<(i64, VideoObject)>,
    q: MatchQuery,
    oid: i64,
    ctx: Seq<(i64, VideoObject)>,
    reg: Map<Seq<char>, (UserFunctionType, BuiltinFunction)>,
) -> int
    decreases q, entries.len(), 1int,
{
    if entries.len() == 0 {
        0
    } else {
        let rest = spec_count_children(entries.drop_last(), q, oid, ctx, reg);
        let o = entries.last().1;
        if o@.parent_id == Some(oid) && spec_matches(q, o@, ctx, reg) {
            rest + 1
        } else {
            rest
        }
    }
}

proof fn lemma_count_children_bound(
    entries: Seq<(i64, VideoObject)>,
    q: MatchQuery,
    oid: i64,
    ctx: Seq<(i64, VideoObject)>,
    reg: Map<Seq<char>, (UserFunctionType, BuiltinFunction)>,
)
    ensures
        0 <= spec_count_children(entries, q, oid, ctx, reg) <= entries.len(),
    decreases entries.len(),
{
    if entries.len() > 0 {
        lemma_count_children_bound(entries.drop_last(), q, oid, ctx, reg);
    }
}

impl MatchQuery {
    /// The evaluator, resolving parent and child links against `ctx`.
    #[verifier::loop_isolation(false)]
    fn eval(&self, o: &VideoObject, ctx: &IdMap<VideoObject>, registry: &UdfRegistry) -> (r: bool)
        requires
            o.wf(),
            forall|j: int| 0 <= j < ctx.seq().len() ==> (#[trigger] ctx.seq()[j]).1.wf(),
            registry.wf(),
            spec_supported(*self, registry@),
        ensures
            r == spec_matches(*self, o@, ctx.seq(), registry@),
        decreases self, 0int, 0int,
    {
        match self {
            MatchQuery::Id(x) => x.execute(&o.id),
            MatchQuery::Creator(x) => x.execute(o.namespace.as_str()),
            MatchQuery::Label(x) => x.execute(o.label.as_str()),
            MatchQuery::ConfidenceDefined => o.confidence.is_some(),
            MatchQuery::Confidence(x) => match &o.confidence {
                Some(c) => x.execute(c),
                None => false,
            },
            MatchQuery::TrackDefined => o.track_id.is_some(),
            MatchQuery::TrackId(x) => match &o.track_id {
                Some(t) => x.execute(t),
                None => false,
            },
            MatchQuery::TrackBoxXCenter(x) => match &o.track_box {
                Some(b) => x.execute(&b.xc),
                None => false,
            },
            MatchQuery::TrackBoxYCenter(x) => match &o.track_box {
                Some(b) => x.execute(&b.yc),
                None => false,
            },
            MatchQuery::TrackBoxWidth(x) => match &o.track_box {
                Some(b) => x.execute(&b.width),
                None => false,
            },
            MatchQuery::TrackBoxHeight(x) => match &o.track_box {
                Some(b) => x.execute(&b.height),
                None => false,
            },
            MatchQuery::TrackBoxAngleDefined => match &o.track_box {
                Some(b) => b.angle.is_some(),
                None => false,
            },
            MatchQuery::TrackBoxAngle(x) => match &o.track_box {
                Some(b) => match &b.angle {
                    Some(a) => x.execute(a),
                    None => false,
                },
                None => false,
            },
            MatchQuery::ParentDefined => o.parent_id.is_some(),
            MatchQuery::ParentId(x) => match &o.parent_id {
                Some(p) => match find_in_ctx(ctx, *p) {
                    Some(po) => x.execute(&po.id),
                    None => false,
                },
                None => false,
            },
            MatchQuery::ParentCreator(x) => match &o.parent_id {
                Some(p) => match find_in_ctx(ctx, *p) {
                    Some(po) => x.execute(po.namespace.as_str()),
                    None => false,
                },
                None => false,
            },
            MatchQuery::ParentLabel(x) => match &o.parent_id {
                Some(p) => match find_in_ctx(ctx, *p) {
                    Some(po) => x.execute(po.label.as_str()),
                    None => false,
                },
                None => false,
            },
            MatchQuery::WithChildren(b, n) => {
                let m = ctx.len();
                let mut count: usize = 0;
                let mut k: usize = 0;
                proof {
                    lemma_count_children_bound(
                        ctx.seq().take(0),
                        **b,
                        o.id,
                        ctx.seq(),
                        registry@,
                    );
                }
                while k < m
                    invariant
                        o.wf(),
                        forall|j: int|
                            0 <= j < ctx.seq().len() ==> (#[trigger] ctx.seq()[j]).1.wf(),
                        registry.wf(),
                        spec_supported(**b, registry@),
                        m == ctx.seq().len(),
                        k <= m,
                        count <= k,
                        count == spec_count_children(
                            ctx.seq().take(k as int),
                            **b,
                            o.id,
                            ctx.seq(),
                            registry@,
                        ),
                    decreases m - k,
                {
                    proof {
                        assert(ctx.seq().take(k + 1).drop_last() =~= ctx.seq().take(k as int));
                        assert(ctx.seq().take(k + 1).last() == ctx.seq()[k as int]);
                    }
                    let child = &ctx.entries[k].1;
                    let is_child = match &child.parent_id {
                        Some(p) => *p == o.id,
                        None => false,
                    };
                    if is_child {
                        if b.eval(child, ctx, registry) {
                            count += 1;
                        }
                    } else {
                        proof {
                            assert(ctx.seq()[k as int].1@.parent_id != Some(o.id));
                        }
                    }
                    k += 1;
                }
                proof {
                    assert(ctx.seq().take(m as int) =~= ctx.seq());
                }
                n.execute_on_count(count)
            },
            MatchQuery::BoxXCenter(x) => x.execute(&o.detection_box.xc),
            MatchQuery::BoxYCenter(x) => x.execute(&o.detection_box.yc),
            MatchQuery::BoxWidth(x) => x.execute(&o.detection_box.width),
            MatchQuery::BoxHeight(x) => x.execute(&o.detection_box.height),
            MatchQuery::BoxAngleDefined => o.detection_box.angle.is_some(),
            MatchQuery::BoxAngle(x) => match &o.detection_box.angle {
                Some(a) => x.execute(a),
                None => false,
            },
            MatchQuery::AttributeDefined(ns, name) => {
                let has = match o.attributes.get(ns.as_str(), name.as_str()) {
                    Some(_) => true,
                    None => false,
                };
                has
            },
            MatchQuery::AttributesEmpty => {
                let empty = o.attributes.len() == 0;
                proof {
                    if empty {
                        assert forall|k: (Seq<char>, Seq<char>)|
                            !o.attributes.spec_contains(k) by {}
                        assert(o@.attributes =~= Map::<
                            (Seq<char>, Seq<char>),
                            AttributeView,
                        >::empty());
                    } else {
                        let k0 = crate::attrset::key_of(o.attributes.seq()[0]@);
                        assert(o.attributes.spec_contains(k0));
                        assert(o@.attributes.contains_key(k0));
                    }
                }
                empty
            },
            MatchQuery::And(v) => {
                let n = v.len();
                let mut i: usize = 0;
                while i < n
                    invariant
                        o.wf(),
                        forall|j2: int|
                            0 <= j2 < ctx.seq().len() ==> (#[trigger] ctx.seq()[j2]).1.wf(),
                        registry.wf(),
                        forall|j: int|
                            0 <= j < v@.len() ==> spec_supported(#[trigger] v@[j], registry@),
                        n == v@.len(),
                        i <= n,
                        forall|j: int|
                            0 <= j < i ==> spec_matches(
                                #[trigger] v@[j],
                                o@,
                                ctx.seq(),
                                registry@,
                            ),
                    decreases n - i,
                {
                    if !v[i].eval(o, ctx, registry) {
                        return false;
                    }
                    i += 1;
                }
                true
            },
            MatchQuery::Or(v) => {
                let n = v.len();
                let mut i: usize = 0;
                while i < n
                    invariant
                        o.wf(),
                        forall|j2: int|
                            0 <= j2 < ctx.seq().len() ==> (#[trigger] ctx.seq()[j2]).1.wf(),
                        registry.wf(),
                        forall|j: int|
                            0 <= j < v@.len() ==> spec_supported(#[trigger] v@[j], registry@),
                        n == v@.len(),
                        i <= n,
                        forall|j: int|
                            0 <= j < i ==> !spec_matches(
                                #[trigger] v@[j],
                                o@,
                                ctx.seq(),
                                registry@,
                            ),
                    decreases n - i,
                {
                    if v[i].eval(o, ctx, registry) {
                        return true;
                    }
                    i += 1;
                }
                false
            },
            MatchQuery::Not(b) => !b.eval(o, ctx, registry),
            MatchQuery::Idle => true,
            MatchQuery::UserDefinedObjectPredicate(p, s) => {
                let name = canonical_udf_name(p.as_str(), s.as_str());
                match registry.lookup(name.as_str()) {
                    Some((_, f)) => match f {
                        BuiltinFunction::UnaryOpEven => o.id % 2 == 0,
                        _ => {
                            proof {
                                assert(false);
                            }
                            false
                        },
                    },
                    None => {
                        proof {
                            assert(false);
                        }
                        false
                    },
                }
            },
            _ => {
                proof {
                    assert(false);
                }
                false
            },
        }
    }

    /// Evaluates the query against one object with a fresh, empty
    /// resolution context: parents and children are not visible.
    pub fn execute_with_new_context(&self, o: &VideoObject, registry: &UdfRegistry) -> (r: bool)
        requires
            o.wf(),
            registry.wf(),
            spec_supported(*self, registry@),
        ensures
            r == spec_matches(*self, o@, Seq::empty(), registry@),
    {
        let ctx: IdMap<VideoObject> = IdMap::new();
        proof {
            assert(ctx.seq() =~= Seq::<(i64, VideoObject)>::empty());
        }
        self.eval(o, &ctx, registry)
    }
}

/// The object of `ctx` filed under `id`, resolved on the table itself.
fn find_in_ctx(ctx: &IdMap<VideoObject>, id: i64) -> (r: Option<&VideoObject>)
    ensures
        match r {
            Some(o) => spec_find_ctx(ctx.seq(), id) == Some(o@),
            None => spec_find_ctx(ctx.seq(), id) is None,
        },
{
    let n = ctx.len();
    let mut i: usize = n;
    proof {
        assert(ctx.seq().take(n as int) =~= ctx.seq());
    }
    while i > 0
        invariant
            n == ctx.seq().len(),
            i <= n,
            spec_find_ctx(ctx.seq(), id) == spec_find_ctx(ctx.seq().take(i as int), id),
        decreases i,
    {
        proof {
            assert(ctx.seq().take(i as int).drop_last() =~= ctx.seq().take(i - 1));
            assert(ctx.seq().take(i as int).last() == ctx.seq()[i - 1]);
        }
        if ctx.entries[i - 1].0 == id {
            return Some(&ctx.entries[i - 1].1);
        }
        i -= 1;
    }
    proof {
        assert(ctx.seq().take(0) =~= Seq::<(i64, VideoObject)>::empty());
    }
    None
}

/// The matching objects of `s`, in their given order, evaluated with an
/// empty resolution context.
pub open spec fn spec_filter(
    s: Seq<ObjectView>,
    q: MatchQuery,
    reg: Map<Seq<char>, (UserFunctionType, BuiltinFunction)>,
) -> Seq<ObjectView>
    decreases s.len(),
{
    if s.len() == 0 {
        Seq::empty()
    } else {
        let rest = spec_filter(s.drop_last(), q, reg);
        if spec_matches(q, s.last(), Seq::empty(), reg) {
            rest.push(s.last())
        } else {
            rest
        }
    }
}

/// The non-matching objects of `s`, in their given order.
pub open spec fn spec_reject(
    s: Seq<ObjectView>,
    q: MatchQuery,
    reg: Map<Seq<char>, (UserFunctionType, BuiltinFunction)>,
) -> Seq<ObjectView>
    decreases s.len(),
{
    if s.len() == 0 {
        Seq::empty()
    } else {
        let rest = spec_reject(s.drop_last(), q, reg);
        if !spec_matches(q, s.last(), Seq::empty(), reg) {
            rest.push(s.last())
        } else {
            rest
        }
    }
}

/// The matching objects, in input order: the filter keeps the order of
/// its input by construction.
pub fn filter(objs: &Vec<VideoObject>, q: &MatchQuery, registry: &UdfRegistry) -> (r: Vec<
    VideoObject,
>)
    requires
        registry.wf(),
        spec_supported(*q, registry@),
        forall|j: int| 0 <= j < objs@.len() ==> (#[trigger] objs@[j]).wf(),
    ensures
        r.deep_view() == spec_filter(objs.deep_view(), *q, registry@),
        forall|j: int| 0 <= j < r@.len() ==> (#[trigger] r@[j]).wf(),
{
    let ghost sv = objs.deep_view();
    let mut r: Vec<VideoObject> = Vec::new();
    let n = objs.len();
    let mut i: usize = 0;
    while i < n
        invariant
            registry.wf(),
            spec_supported(*q, registry@),
            forall|j: int| 0 <= j < objs@.len() ==> (#[trigger] objs@[j]).wf(),
            sv == objs.deep_view(),
            n == objs@.len(),
            i <= n,
            r.deep_view() =~= spec_filter(sv.take(i as int), *q, registry@),
            forall|j: int| 0 <= j < r@.len() ==> (#[trigger] r@[j]).wf(),
        decreases n - i,
    {
        proof {
            assert(sv.take(i + 1).drop_last() =~= sv.take(i as int));
            assert(sv.take(i + 1).last() == sv[i as int]);
            assert(sv[i as int] == objs@[i as int]@);
        }
        if q.execute_with_new_context(&objs[i], registry) {
            r.push(objs[i].clone());
        }
        proof {
            assert(r.deep_view() =~= spec_filter(sv.take(i + 1), *q, registry@));
        }
        i += 1;
    }
    proof {
        assert(sv.take(n as int) =~= sv);
    }
    r
}

/// Both sides at once: the matching objects and the others, each in
/// input order.
pub fn partition(objs: &Vec<VideoObject>, q: &MatchQuery, registry: &UdfRegistry) -> (r: (
    Vec<VideoObject>,
    Vec<VideoObject>,
))
    requires
        registry.wf(),
        spec_supported(*q, registry@),
        forall|j: int| 0 <= j < objs@.len() ==> (#[trigger] objs@[j]).wf(),
    ensures
        r.0.deep_view() == spec_filter(objs.deep_view(), *q, registry@),
        r.1.deep_view() == spec_reject(objs.deep_view(), *q, registry@),
        forall|j: int| 0 <= j < r.0@.len() ==> (#[trigger] r.0@[j]).wf(),
        forall|j: int| 0 <= j < r.1@.len() ==> (#[trigger] r.1@[j]).wf(),
{
    let ghost sv = objs.deep_view();
    let mut a: Vec<VideoObject> = Vec::new();
    let mut b: Vec<VideoObject> = Vec::new();
    let n = objs.len();
    let mut i: usize = 0;
    while i < n
        invariant
            registry.wf(),
            spec_supported(*q, registry@),
            forall|j: int| 0 <= j < objs@.len() ==> (#[trigger] objs@[j]).wf(),
            sv == objs.deep_view(),
            n == objs@.len(),
            i <= n,
            a.deep_view() =~= spec_filter(sv.take(i as int), *q, registry@),
            b.deep_view() =~= spec_reject(sv.take(i as int), *q, registry@),
            forall|j: int| 0 <= j < a@.len() ==> (#[trigger] a@[j]).wf(),
            forall|j: int| 0 <= j < b@.len() ==> (#[trigger] b@[j]).wf(),
        decreases n - i,
    {
        proof {
            assert(sv.take(i + 1).drop_last() =~= sv.take(i as int));
            assert(sv.take(i + 1).last() == sv[i as int]);
            assert(sv[i as int] == objs@[i as int]@);
        }
        if q.execute_with_new_context(&objs[i], registry) {
            a.push(objs[i].clone());
        } else {
            b.push(objs[i].clone());
        }
        proof {
            assert(a.deep_view() =~= spec_filter(sv.take(i + 1), *q, registry@));
            assert(b.deep_view() =~= spec_reject(sv.take(i + 1), *q, registry@));
        }
        i += 1;
    }
    proof {
        assert(sv.take(n as int) =~= sv);
    }
    (a, b)
}

/// What the filter keeps and what it rejects together carry exactly the
/// input objects: the two sides of a partition are the input, as a
/// multiset.
pub proof fn lemma_partition_concatenation(
    s: Seq<ObjectView>,
    q: MatchQuery,
    reg: Map<Seq<char>, (UserFunctionType, BuiltinFunction)>,
)
    ensures
        spec_filter(s, q, reg).to_multiset().add(spec_reject(s, q, reg).to_multiset())
            =~= s.to_multiset(),
    decreases s.len(),
{
    broadcast use vstd::seq_lib::group_seq_properties;

    if s.len() == 0 {
        assert(spec_filter(s, q, reg).to_multiset() =~= Multiset::<ObjectView>::empty());
        assert(spec_reject(s, q, reg).to_multiset() =~= Multiset::<ObjectView>::empty());
        assert(s.to_multiset() =~= Multiset::<ObjectView>::empty());
    } else {
        lemma_partition_concatenation(s.drop_last(), q, reg);
        assert(s =~= s.drop_last().push(s.last()));
        s.drop_last().to_multiset_ensures();
        spec_filter(s.drop_last(), q, reg).to_multiset_ensures();
        spec_reject(s.drop_last(), q, reg).to_multiset_ensures();
        assert(s.to_multiset() =~= s.drop_last().to_multiset().insert(s.last()));
    }
}

/// The per-frame filter over a keyed batch of object lists: each value
/// filtered, entries whose filter result is empty left out, order kept.
pub open spec fn spec_batch_filter(
    s: Seq<(i64, Seq<ObjectView>)>,
    q: MatchQuery,
    reg: Map<Seq<char>, (UserFunctionType, BuiltinFunction)>,
) -> Seq<(i64, Seq<ObjectView>)>
    decreases s.len(),
{
    if s.len() == 0 {
        Seq::empty()
    } else {
        let rest = spec_batch_filter(s.drop_last(), q, reg);
        let kept = spec_filter(s.last().1, q, reg);
        if kept.len() > 0 {
            rest.push((s.last().0, kept))
        } else {
            rest
        }
    }
}

/// The view of a batch of object lists.
pub open spec fn batch_view(s: Seq<(i64, Vec<VideoObject>)>) -> Seq<(i64, Seq<ObjectView>)> {
    Seq::new(s.len(), |i: int| (s[i].0, s[i].1.deep_view()))
}

/// Filters every list of a keyed batch, keeping only keys whose result
/// is not empty.
pub fn batch_filter(
    batch: &Vec<(i64, Vec<VideoObject>)>,
    q: &MatchQuery,
    registry: &UdfRegistry,
) -> (r: Vec<(i64, Vec<VideoObject>)>)
    requires
        registry.wf(),
        spec_supported(*q, registry@),
        forall|i: int, j: int|
            0 <= i < batch@.len() && 0 <= j < (#[trigger] batch@[i]).1@.len() ==> (
            #[trigger] batch@[i].1@[j]).wf(),
    ensures
        batch_view(r@) =~= spec_batch_filter(batch_view(batch@), *q, registry@),
{
    let ghost bv = batch_view(batch@);
    let mut r: Vec<(i64, Vec<VideoObject>)> = Vec::new();
    let n = batch.len();
    let mut i: usize = 0;
    while i < n
        invariant
            registry.wf(),
            spec_supported(*q, registry@),
            forall|i2: int, j: int|
                0 <= i2 < batch@.len() && 0 <= j < (#[trigger] batch@[i2]).1@.len() ==> (
                #[trigger] batch@[i2].1@[j]).wf(),
            bv == batch_view(batch@),
            n == batch@.len(),
            i <= n,
            batch_view(r@) =~= spec_batch_filter(bv.take(i as int), *q, registry@),
        decreases n - i,
    {
        proof {
            assert(bv.take(i + 1).drop_last() =~= bv.take(i as int));
            assert(bv.take(i + 1).last() == bv[i as int]);
            assert(bv[i as int].1 == batch@[i as int].1.deep_view());
        }
        let kept = filter(&batch[i].1, q, registry);
        if kept.len() > 0 {
            let ghost prev = batch_view(r@);
            r.push((batch[i].0, kept));
            proof {
                assert(batch_view(r@) =~= prev.push((bv[i as int].0, spec_filter(
                    bv[i as int].1,
                    *q,
                    registry@,
                ))));
            }
        }
        proof {
            assert(batch_view(r@) =~= spec_batch_filter(bv.take(i + 1), *q, registry@));
        }
        i += 1;
    }
    proof {
        assert(bv.take(n as int) =~= bv);
    }
    r
}

/// Partitions every list of a keyed batch; both results carry every key
/// of the input, in order.
pub fn batch_partition(
    batch: Vec<(i64, Vec<VideoObject>)>,
    q: &MatchQuery,
    registry: &UdfRegistry,
) -> (r: (Vec<(i64, Vec<VideoObject>)>, Vec<(i64, Vec<VideoObject>)>))
    requires
        registry.wf(),
        spec_supported(*q, registry@),
        forall|i: int, j: int|
            0 <= i < batch@.len() && 0 <= j < (#[trigger] batch@[i]).1@.len() ==> (
            #[trigger] batch@[i].1@[j]).wf(),
    ensures
        r.0@.len() == batch@.len(),
        r.1@.len() == batch@.len(),
        forall|i: int|
            0 <= i < batch@.len() ==> (#[trigger] r.0@[i]).0 == batch@[i].0
                && r.0@[i].1.deep_view() == spec_filter(batch@[i].1.deep_view(), *q, registry@),
        forall|i: int|
            0 <= i < batch@.len() ==> (#[trigger] r.1@[i]).0 == batch@[i].0
                && r.1@[i].1.deep_view() == spec_reject(batch@[i].1.deep_view(), *q, registry@),
{
    let mut a: Vec<(i64, Vec<VideoObject>)> = Vec::new();
    let mut b: Vec<(i64, Vec<VideoObject>)> = Vec::new();
    let n = batch.len();
    let mut i: usize = 0;
    while i < n
        invariant
            registry.wf(),
            spec_supported(*q, registry@),
            forall|i2: int, j: int|
                0 <= i2 < batch@.len() && 0 <= j < (#[trigger] batch@[i2]).1@.len() ==> (
                #[trigger] batch@[i2].1@[j]).wf(),
            n == batch@.len(),
            i <= n,
            a@.len() == i,
            b@.len() == i,
            forall|i2: int|
                0 <= i2 < i ==> (#[trigger] a@[i2]).0 == batch@[i2].0 && a@[i2].1.deep_view()
                    == spec_filter(batch@[i2].1.deep_view(), *q, registry@),
            forall|i2: int|
                0 <= i2 < i ==> (#[trigger] b@[i2]).0 == batch@[i2].0 && b@[i2].1.deep_view()
                    == spec_reject(batch@[i2].1.deep_view(), *q, registry@),
        decreases n - i,
    {
        let (ma, mb) = partition(&batch[i].1, q, registry);
        a.push((batch[i].0, ma));
        b.push((batch[i].0, mb));
        i += 1;
    }
    (a, b)
}

/// Applies the registered map modifier to every object and collects the
/// new objects; the first failure stops the walk.
pub fn map_udf(objs: &Vec<VideoObject>, udf: &str, registry: &UdfRegistry) -> (r: Result<
    Vec<VideoObject>,
    UdfError,
>)
    requires
        registry.wf(),
        forall|j: int| 0 <= j < objs@.len() ==> (#[trigger] objs@[j]).wf(),
    ensures
        match r {
            Ok(v) => {
                &&& v@.len() == objs@.len()
                &&& forall|j: int|
                    0 <= j < objs@.len() ==> (#[trigger] v@[j])@ == (ObjectView {
                        label: spec_modified_label(objs@[j]@.label),
                        parent_id: None,
                        ..objs@[j]@
                    })
                &&& (objs@.len() > 0 ==> registry@.contains_key(udf@) && registry@.index(udf@).0
                    == UserFunctionType::ObjectMapModifier)
            },
            Err(e) => {
                &&& objs@.len() > 0
                &&& !(registry@.contains_key(udf@) && registry@.index(udf@).0
                    == UserFunctionType::ObjectMapModifier)
                &&& (e == UdfError::NotRegistered <==> !registry@.contains_key(udf@))
            },
        },
{
    let mut r: Vec<VideoObject> = Vec::new();
    let n = objs.len();
    let mut i: usize = 0;
    while i < n
        invariant
            registry.wf(),
            forall|j: int| 0 <= j < objs@.len() ==> (#[trigger] objs@[j]).wf(),
            n == objs@.len(),
            i <= n,
            r@.len() == i,
            forall|j: int|
                0 <= j < i ==> (#[trigger] r@[j])@ == (ObjectView {
                    label: spec_modified_label(objs@[j]@.label),
                    parent_id: None,
                    ..objs@[j]@
                }),
            i > 0 ==> registry@.contains_key(udf@) && registry@.index(udf@).0
                == UserFunctionType::ObjectMapModifier,
        decreases n - i,
    {
        match call_object_map_modifier(registry, udf, &objs[i]) {
            Ok(o) => {
                r.push(o);
            },
            Err(e) => {
                return Err(e);
            },
        }
        i += 1;
    }
    Ok(r)
}

/// Applies the registered in-place modifier to every object, returning
/// one result per object.
pub fn foreach_udf(objs: &mut Vec<VideoObject>, udf: &str, registry: &UdfRegistry) -> (r: Vec<
    Result<(), UdfError>,
>)
    requires
        registry.wf(),
    ensures
        r@.len() == old(objs)@.len(),
        (registry@.contains_key(udf@) && registry@.index(udf@).0
            == UserFunctionType::ObjectInplaceModifier) ==> {
            &&& final(objs)@.len() == old(objs)@.len()
            &&& forall|j: int|
                0 <= j < old(objs)@.len() ==> (#[trigger] final(objs)@[j])@ == (ObjectView {
                    label: spec_modified_label(old(objs)@[j]@.label),
                    ..old(objs)@[j]@
                }) && r@[j] is Ok
        },
        !(registry@.contains_key(udf@) && registry@.index(udf@).0
            == UserFunctionType::ObjectInplaceModifier) ==> *final(objs) == *old(objs),
{
    let registered = match registry.lookup(udf) {
        Some((kind, _)) => match kind {
            UserFunctionType::ObjectInplaceModifier => true,
            _ => false,
        },
        None => false,
    };
    let n = objs.len();
    let mut r: Vec<Result<(), UdfError>> = Vec::new();
    if registered {
        match call_object_inplace_modifier(registry, udf, objs) {
            Ok(_) => {
                let mut i: usize = 0;
                while i < n
                    invariant
                        i <= n,
                        r@.len() == i,
                        forall|j: int| 0 <= j < i ==> (#[trigger] r@[j]) is Ok,
                    decreases n - i,
                {
                    r.push(Ok(()));
                    i += 1;
                }
                r
            },
            Err(_) => {
                proof {
                    assert(false);
                }
                r
            },
        }
    } else {
        let e = match registry.lookup(udf) {
            None => UdfError::NotRegistered,
            Some(_) => UdfError::KindMismatch,
        };
        let mut i: usize = 0;
        while i < n
            invariant
                i <= n,
                r@.len() == i,
            decreases n - i,
        {
            r.push(Err(e));
            i += 1;
        }
        r
    }
}

/// Applies the registered map modifier to every list of a keyed batch;
/// the first failure stops the walk.
pub fn batch_map_udf(
    batch: &Vec<(i64, Vec<VideoObject>)>,
    udf: &str,
    registry: &UdfRegistry,
) -> (r: Result<Vec<(i64, Vec<VideoObject>)>, UdfError>)
    requires
        registry.wf(),
        forall|i: int, j: int|
            0 <= i < batch@.len() && 0 <= j < (#[trigger] batch@[i]).1@.len() ==> (
            #[trigger] batch@[i].1@[j]).wf(),
    ensures
        match r {
            Ok(v) => {
                &&& v@.len() == batch@.len()
                &&& forall|i: int|
                    0 <= i < batch@.len() ==> (#[trigger] v@[i]).0 == batch@[i].0
                        && v@[i].1@.len() == batch@[i].1@.len()
                &&& forall|i: int, j: int|
                    0 <= i < batch@.len() && 0 <= j < (#[trigger] batch@[i]).1@.len() ==> (
                    #[trigger] v@[i].1@[j])@ == (ObjectView {
                        label: spec_modified_label(batch@[i].1@[j]@.label),
                        parent_id: None,
                        ..batch@[i].1@[j]@
                    })
            },
            Err(e) => {
                &&& !(registry@.contains_key(udf@) && registry@.index(udf@).0
                    == UserFunctionType::ObjectMapModifier)
                &&& (e == UdfError::NotRegistered <==> !registry@.contains_key(udf@))
            },
        },
{
    let mut r: Vec<(i64, Vec<VideoObject>)> = Vec::new();
    let n = batch.len();
    let mut i: usize = 0;
    while i < n
        invariant
            registry.wf(),
            forall|i2: int, j: int|
                0 <= i2 < batch@.len() && 0 <= j < (#[trigger] batch@[i2]).1@.len() ==> (
                #[trigger] batch@[i2].1@[j]).wf(),
            n == batch@.len(),
            i <= n,
            r@.len() == i,
            forall|i2: int|
                0 <= i2 < i ==> (#[trigger] r@[i2]).0 == batch@[i2].0 && r@[i2].1@.len()
                    == batch@[i2].1@.len(),
            forall|i2: int, j: int|
                0 <= i2 < i && 0 <= j < (#[trigger] batch@[i2]).1@.len() ==> (
                #[trigger] r@[i2].1@[j])@ == (ObjectView {
                    label: spec_modified_label(batch@[i2].1@[j]@.label),
                    parent_id: None,
                    ..batch@[i2].1@[j]@
                }),
        decreases n - i,
    {
        let mapped = match map_udf(&batch[i].1, udf, registry) {
            Ok(v) => v,
            Err(e) => {
                return Err(e);
            },
        };
        r.push((batch[i].0, mapped));
        i += 1;
    }
    Ok(r)
}

/// Applies the registered in-place modifier to every list of a keyed
/// batch, changing the objects where they stand: one result list per
/// key, keys kept in order. Where no in-place modifier is registered
/// under the name, no object changes.
pub fn batch_foreach_udf(
    batch: &mut Vec<(i64, Vec<VideoObject>)>,
    udf: &str,
    registry: &UdfRegistry,
) -> (r: Vec<(i64, Vec<Result<(), UdfError>>)>)
    requires
        registry.wf(),
    ensures
        r@.len() == old(batch)@.len(),
        final(batch)@.len() == old(batch)@.len(),
        forall|i: int|
            0 <= i < old(batch)@.len() ==> {
                &&& (#[trigger] r@[i]).0 == old(batch)@[i].0
                &&& final(batch)@[i].0 == old(batch)@[i].0
                &&& r@[i].1@.len() == old(batch)@[i].1@.len()
            },
        (registry@.contains_key(udf@) && registry@.index(udf@).0
            == UserFunctionType::ObjectInplaceModifier) ==> forall|i: int, j: int|
            0 <= i < old(batch)@.len() && 0 <= j < (#[trigger] old(batch)@[i]).1@.len() ==> {
                &&& (#[trigger] final(batch)@[i].1@[j])@ == (ObjectView {
                    label: spec_modified_label(old(batch)@[i].1@[j]@.label),
                    ..old(batch)@[i].1@[j]@
                })
                &&& r@[i].1@[j] is Ok
            },
        !(registry@.contains_key(udf@) && registry@.index(udf@).0
            == UserFunctionType::ObjectInplaceModifier) ==> forall|i: int|
            0 <= i < old(batch)@.len() ==> #[trigger] final(batch)@[i] == old(batch)@[i],
{
    let ghost registered = registry@.contains_key(udf@) && registry@.index(udf@).0
        == UserFunctionType::ObjectInplaceModifier;
    let mut r: Vec<(i64, Vec<Result<(), UdfError>>)> = Vec::new();
    let n = batch.len();
    let mut i: usize = 0;
    while i < n
        invariant
            registry.wf(),
            registered == (registry@.contains_key(udf@) && registry@.index(udf@).0
                == UserFunctionType::ObjectInplaceModifier),
            n == old(batch)@.len(),
            batch@.len() == n,
            i <= n,
            r@.len() == i,
            forall|i2: int| i <= i2 < n ==> #[trigger] batch@[i2] == old(batch)@[i2],
            forall|i2: int|
                0 <= i2 < i ==> {
                    &&& (#[trigger] r@[i2]).0 == old(batch)@[i2].0
                    &&& batch@[i2].0 == old(batch)@[i2].0
                    &&& r@[i2].1@.len() == old(batch)@[i2].1@.len()
                },
            registered ==> forall|i2: int, j: int|
                0 <= i2 < i && 0 <= j < (#[trigger] old(batch)@[i2]).1@.len() ==> {
                    &&& (#[trigger] batch@[i2].1@[j])@ == (ObjectView {
                        label: spec_modified_label(old(batch)@[i2].1@[j]@.label),
                        ..old(batch)@[i2].1@[j]@
                    })
                    &&& r@[i2].1@[j] is Ok
                },
            !registered ==> forall|i2: int|
                0 <= i2 < i ==> #[trigger] batch@[i2] == old(batch)@[i2],
        decreases n - i,
    {
        let key = batch[i].0;
        proof {
            assert(batch@[i as int] == old(batch)@[i as int]);
        }
        let entry = vstd::std_specs::vec::vec_index_mut(batch, i);
        let results = foreach_udf(&mut entry.1, udf, registry);
        r.push((key, results));
        proof {
            assert(r@[i as int].0 == old(batch)@[i as int].0);
            assert(batch@[i as int].0 == old(batch)@[i as int].0);
            assert(r@[i as int].1@.len() == old(batch)@[i as int].1@.len());
            if !registered {
                assert(batch@[i as int].1 == old(batch)@[i as int].1);
                assert(batch@[i as int] == old(batch)@[i as int]);
            }
        }
        i += 1;
    }
    r
}

/// The views of the frame-table entries that match `q`, in table
/// order, each resolved against the full table `ctx`.
pub open spec fn spec_frame_filter(
    s: Seq<(i64, VideoObject)>,
    q: MatchQuery,
    ctx: Seq<(i64, VideoObject)>,
    reg: Map<Seq<char>, (UserFunctionType, BuiltinFunction)>,
) -> Seq<ObjectView>
    decreases s.len(),
{
    if s.len() == 0 {
        Seq::empty()
    } else {
        let rest = spec_frame_filter(s.drop_last(), q, ctx, reg);
        if spec_matches(q, s.last().1@, ctx, reg) {
            rest.push(s.last().1@)
        } else {
            rest
        }
    }
}

impl VideoFrame {
    /// Whether the object under `id` matches `q`, resolved against the
    /// frame's own object table; nothing when the frame does not own
    /// the id.
    pub fn object_matches(&self, q: &MatchQuery, id: i64, registry: &UdfRegistry) -> (r: Option<
        bool,
    >)
        requires
            self.wf(),
            registry.wf(),
            spec_supported(*q, registry@),
        ensures
            match r {
                Some(b) => self@.objects.contains_key(id) && b == spec_matches(
                    *q,
                    self@.objects.index(id),
                    self.objects.seq(),
                    registry@,
                ),
                None => !self@.objects.contains_key(id),
            },
    {
        proof {
            assert forall|j: int|
                0 <= j < self.objects.seq().len() implies (
            #[trigger] self.objects.seq()[j]).1.wf() by {
                self.objects.lemma_seq_view(j);
            }
        }
        match self.objects.get(id) {
            Some(o) => Some(q.eval(o, &self.objects, registry)),
            None => None,
        }
    }

    /// The frame's objects matching `q`, in table order, resolved
    /// against the frame's own object table.
    #[verifier::loop_isolation(false)]
    pub fn access_objects(&self, q: &MatchQuery, registry: &UdfRegistry) -> (r: Vec<VideoObject>)
        requires
            self.wf(),
            registry.wf(),
            spec_supported(*q, registry@),
        ensures
            r.deep_view() == spec_frame_filter(
                self.objects.seq(),
                *q,
                self.objects.seq(),
                registry@,
            ),
            forall|j: int| 0 <= j < r@.len() ==> (#[trigger] r@[j]).wf(),
    {
        proof {
            assert forall|j: int|
                0 <= j < self.objects.seq().len() implies (
            #[trigger] self.objects.seq()[j]).1.wf() by {
                self.objects.lemma_seq_view(j);
            }
        }
        let ghost sv = self.objects.seq();
        let mut r: Vec<VideoObject> = Vec::new();
        let n = self.objects.len();
        let mut i: usize = 0;
        while i < n
            invariant
                i <= n,
                r.deep_view() =~= spec_frame_filter(sv.take(i as int), *q, sv, registry@),
                forall|j: int| 0 <= j < r@.len() ==> (#[trigger] r@[j]).wf(),
            decreases n - i,
        {
            proof {
                assert(sv.take(i + 1).drop_last() =~= sv.take(i as int));
                assert(sv.take(i + 1).last() == sv[i as int]);
            }
            let o = &self.objects.entries[i].1;
            if q.eval(o, &self.objects, registry) {
                r.push(o.clone());
            }
            proof {
                assert(r.deep_view() =~= spec_frame_filter(sv.take(i + 1), *q, sv, registry@));
            }
            i += 1;
        }
        proof {
            assert(sv.take(n as int) =~= sv);
        }
        r
    }
}

} // verus!
