use vstd::prelude::*;

use crate::bbox::{BBox, Point};
use crate::float_value::FloatValue;

verus! {

/// How a segment crosses a polygonal area.
#[derive(Clone, Copy, Debug, PartialEq, Eq, Structural)]
pub enum IntersectionKind {
    Enter,
    Inside,
    Leave,
    Cross,
    Outside,
}

/// A crossing: its kind and the crossed edges, each with an optional tag.
#[derive(Debug)]
pub struct Intersection {
    pub kind: IntersectionKind,
    pub edges: Vec<(usize, Option<String>)>,
}

#[verifier::ext_equal]
pub ghost struct IntersectionView {
    pub kind: IntersectionKind,
    pub edges: Seq<(usize, Option<Seq<char>>)>,
}

impl View for Intersection {
    type V = IntersectionView;

    open spec fn view(&self) -> IntersectionView {
        IntersectionView {
            kind: self.kind,
            edges: self.edges@.map_values(
                |e: (usize, Option<String>)|
                    (
                        e.0,
                        match e.1 {
                            Some(s) => Some(s@),
                            None => None,
                        },
                    ),
            ),
        }
    }
}

impl DeepView for Intersection {
    type V = IntersectionView;

    open spec fn deep_view(&self) -> IntersectionView {
        self.view()
    }
}

impl Intersection {
    pub fn new(kind: IntersectionKind, edges: Vec<(usize, Option<String>)>) -> (r: Intersection)
        ensures
            r.kind == kind,
            r.edges == edges,
    {
        Intersection { kind, edges }
    }
}

impl Clone for Intersection {
    fn clone(&self) -> (r: Self)
        ensures
            r@ == self@,
    {
        let mut edges: Vec<(usize, Option<String>)> = Vec::new();
        let n = self.edges.len();
        let mut i: usize = 0;
        while i < n
            invariant
                n == self.edges@.len(),
                i <= n,
                edges@.len() == i,
                forall|j: int|
                    0 <= j < i ==> (#[trigger] edges@[j]).0 == self.edges@[j].0 && (match (
                    edges@[j].1, self.edges@[j].1) {
                        (Some(a), Some(b)) => a@ == b@,
                        (None, None) => true,
                        _ => false,
                    }),
            decreases n - i,
        {
            let e = &self.edges[i];
            let tag = match &e.1 {
                Some(s) => Some(s.clone()),
                None => None,
            };
            edges.push((e.0, tag));
            i += 1;
        }
        let r = Intersection { kind: self.kind, edges };
        proof {
            assert(r@.edges =~= self@.edges);
            assert(r@ =~= self@);
        }
        r
    }
}

/// The payload of one attribute value.
#[derive(Debug)]
pub enum AttributeValueVariant {
    /// A tensor of bytes: its shape, then the data.
    Bytes(Vec<i64>, Vec<u8>),
    Str(String),
    StrList(Vec<String>),
    Int(i64),
    IntList(Vec<i64>),
    Float(FloatValue),
    FloatList(Vec<FloatValue>),
    Bool(bool),
    Bbox(BBox),
    BboxList(Vec<BBox>),
    Pt(Point),
    PtList(Vec<Point>),
    Crossing(Intersection),
    /// The explicit empty value.
    Absent,
}

#[verifier::ext_equal]
pub ghost enum ValueView {
    Bytes(Seq<i64>, Seq<u8>),
    Str(Seq<char>),
    StrList(Seq<Seq<char>>),
    Int(i64),
    IntList(Seq<i64>),
    Float(FloatValue),
    FloatList(Seq<FloatValue>),
    Bool(bool),
    Bbox(BBox),
    BboxList(Seq<BBox>),
    Pt(Point),
    PtList(Seq<Point>),
    Crossing(IntersectionView),
    Absent,
}

impl View for AttributeValueVariant {
    type V = ValueView;

    open spec fn view(&self) -> ValueView {
        match self {
            AttributeValueVariant::Bytes(shape, data) => ValueView::Bytes(shape@, data@),
            AttributeValueVariant::Str(s) => ValueView::Str(s@),
            AttributeValueVariant::StrList(v) => ValueView::StrList(
                v@.map_values(|s: String| s@),
            ),
            AttributeValueVariant::Int(x) => ValueView::Int(*x),
            AttributeValueVariant::IntList(v) => ValueView::IntList(v@),
            AttributeValueVariant::Float(x) => ValueView::Float(*x),
            AttributeValueVariant::FloatList(v) => ValueView::FloatList(v@),
            AttributeValueVariant::Bool(b) => ValueView::Bool(*b),
            AttributeValueVariant::Bbox(b) => ValueView::Bbox(*b),
            AttributeValueVariant::BboxList(v) => ValueView::BboxList(v@),
            AttributeValueVariant::Pt(p) => ValueView::Pt(*p),
            AttributeValueVariant::PtList(v) => ValueView::PtList(v@),
            AttributeValueVariant::Crossing(i) => ValueView::Crossing(i@),
            AttributeValueVariant::Absent => ValueView::Absent,
        }
    }
}

impl DeepView for AttributeValueVariant {
    type V = ValueView;

    open spec fn deep_view(&self) -> ValueView {
        self.view()
    }
}

/// A generic clone of a vector of plain copyable items.
fn clone_copy_vec<T: Copy>(v: &Vec<T>) -> (r: Vec<T>)
    ensures
        r@ =~= v@,
{
    let mut r: Vec<T> = Vec::new();
    let n = v.len();
    let mut i: usize = 0;
    while i < n
        invariant
            n == v@.len(),
            i <= n,
            r@.len() == i,
            forall|j: int| 0 <= j < i ==> #[trigger] r@[j] == v@[j],
        decreases n - i,
    {
        r.push(v[i]);
        i += 1;
    }
    r
}

fn clone_string_vec(v: &Vec<String>) -> (r: Vec<String>)
    ensures
        r@.len() == v@.len(),
        forall|j: int| 0 <= j < v@.len() ==> (#[trigger] r@[j])@ == v@[j]@,
{
    let mut r: Vec<String> = Vec::new();
    let n = v.len();
    let mut i: usize = 0;
    while i < n
        invariant
            n == v@.len(),
            i <= n,
            r@.len() == i,
            forall|j: int| 0 <= j < i ==> (#[trigger] r@[j])@ == v@[j]@,
        decreases n - i,
    {
        r.push(v[i].clone());
        i += 1;
    }
    r
}

impl Clone for AttributeValueVariant {
    fn clone(&self) -> (r: Self)
        ensures
            r@ == self@,
    {
        match self {
            AttributeValueVariant::Bytes(shape, data) => {
                let r = AttributeValueVariant::Bytes(clone_copy_vec(shape), clone_copy_vec(data));
                proof {
                    assert(r@ =~= self@);
                }
                r
            },
            AttributeValueVariant::Str(s) => AttributeValueVariant::Str(s.clone()),
            AttributeValueVariant::StrList(v) => {
                let r = AttributeValueVariant::StrList(clone_string_vec(v));
                proof {
                    assert(r@->StrList_0 =~= self@->StrList_0);
                    assert(r@ =~= self@);
                }
                r
            },
            AttributeValueVariant::Int(x) => AttributeValueVariant::Int(*x),
            AttributeValueVariant::IntList(v) => {
                let r = AttributeValueVariant::IntList(clone_copy_vec(v));
                proof {
                    assert(r@ =~= self@);
                }
                r
            },
            AttributeValueVariant::Float(x) => AttributeValueVariant::Float(*x),
            AttributeValueVariant::FloatList(v) => {
                let r = AttributeValueVariant::FloatList(clone_copy_vec(v));
                proof {
                    assert(r@ =~= self@);
                }
                r
            },
            AttributeValueVariant::Bool(b) => AttributeValueVariant::Bool(*b),
            AttributeValueVariant::Bbox(b) => AttributeValueVariant::Bbox(*b),
            AttributeValueVariant::BboxList(v) => {
                let r = AttributeValueVariant::BboxList(clone_copy_vec(v));
                proof {
                    assert(r@ =~= self@);
                }
                r
            },
            AttributeValueVariant::Pt(p) => AttributeValueVariant::Pt(*p),
            AttributeValueVariant::PtList(v) => {
                let r = AttributeValueVariant::PtList(clone_copy_vec(v));
                proof {
                    assert(r@ =~= self@);
                }
                r
            },
            AttributeValueVariant::Crossing(i) => AttributeValueVariant::Crossing(i.clone()),
            AttributeValueVariant::Absent => AttributeValueVariant::Absent,
        }
    }
}

/// One value of an attribute: the payload and an optional confidence.
#[derive(Debug)]
pub struct AttributeValue {
    pub confidence: Option<FloatValue>,
    pub value: AttributeValueVariant,
}

#[verifier::ext_equal]
pub ghost struct AttributeValueView {
    pub confidence: Option<FloatValue>,
    pub value: ValueView,
}

impl View for AttributeValue {
    type V = AttributeValueView;

    open spec fn view(&self) -> AttributeValueView {
        AttributeValueView { confidence: self.confidence, value: self.value@ }
    }
}

impl DeepView for AttributeValue {
    type V = AttributeValueView;

    open spec fn deep_view(&self) -> AttributeValueView {
        self.view()
    }
}

impl Clone for AttributeValue {
    fn clone(&self) -> (r: Self)
        ensures
            r@ == self@,
    {
        AttributeValue { confidence: self.confidence, value: self.value.clone() }
    }
}

impl AttributeValue {
    pub fn string(v: String, confidence: Option<FloatValue>) -> (r: AttributeValue)
        ensures
            r@ == (AttributeValueView { confidence, value: ValueView::Str(v@) }),
    {
        AttributeValue { confidence, value: AttributeValueVariant::Str(v) }
    }

    pub fn strings(v: Vec<String>, confidence: Option<FloatValue>) -> (r: AttributeValue)
        ensures
            r@ == (AttributeValueView {
                confidence,
                value: ValueView::StrList(v@.map_values(|s: String| s@)),
            }),
    {
        AttributeValue { confidence, value: AttributeValueVariant::StrList(v) }
    }

    pub fn integer(v: i64, confidence: Option<FloatValue>) -> (r: AttributeValue)
        ensures
            r@ == (AttributeValueView { confidence, value: ValueView::Int(v) }),
    {
        AttributeValue { confidence, value: AttributeValueVariant::Int(v) }
    }

    pub fn integers(v: Vec<i64>, confidence: Option<FloatValue>) -> (r: AttributeValue)
        ensures
            r@ == (AttributeValueView { confidence, value: ValueView::IntList(v@) }),
    {
        AttributeValue { confidence, value: AttributeValueVariant::IntList(v) }
    }

    pub fn float(v: FloatValue, confidence: Option<FloatValue>) -> (r: AttributeValue)
        ensures
            r@ == (AttributeValueView { confidence, value: ValueView::Float(v) }),
    {
        AttributeValue { confidence, value: AttributeValueVariant::Float(v) }
    }

    pub fn floats(v: Vec<FloatValue>, confidence: Option<FloatValue>) -> (r: AttributeValue)
        ensures
            r@ == (AttributeValueView { confidence, value: ValueView::FloatList(v@) }),
    {
        AttributeValue { confidence, value: AttributeValueVariant::FloatList(v) }
    }

    pub fn boolean(v: bool, confidence: Option<FloatValue>) -> (r: AttributeValue)
        ensures
            r@ == (AttributeValueView { confidence, value: ValueView::Bool(v) }),
    {
        AttributeValue { confidence, value: AttributeValueVariant::Bool(v) }
    }

    pub fn bbox(v: BBox, confidence: Option<FloatValue>) -> (r: AttributeValue)
        ensures
            r@ == (AttributeValueView { confidence, value: ValueView::Bbox(v) }),
    {
        AttributeValue { confidence, value: AttributeValueVariant::Bbox(v) }
    }

    pub fn bboxes(v: Vec<BBox>, confidence: Option<FloatValue>) -> (r: AttributeValue)
        ensures
            r@ == (AttributeValueView { confidence, value: ValueView::BboxList(v@) }),
    {
        AttributeValue { confidence, value: AttributeValueVariant::BboxList(v) }
    }

    pub fn point(v: Point, confidence: Option<FloatValue>) -> (r: AttributeValue)
        ensures
            r@ == (AttributeValueView { confidence, value: ValueView::Pt(v) }),
    {
        AttributeValue { confidence, value: AttributeValueVariant::Pt(v) }
    }

    pub fn points(v: Vec<Point>, confidence: Option<FloatValue>) -> (r: AttributeValue)
        ensures
            r@ == (AttributeValueView { confidence, value: ValueView::PtList(v@) }),
    {
        AttributeValue { confidence, value: AttributeValueVariant::PtList(v) }
    }

    pub fn bytes(shape: Vec<i64>, data: Vec<u8>, confidence: Option<FloatValue>) -> (r:
        AttributeValue)
        ensures
            r@ == (AttributeValueView { confidence, value: ValueView::Bytes(shape@, data@) }),
    {
        AttributeValue { confidence, value: AttributeValueVariant::Bytes(shape, data) }
    }

    pub fn intersection(v: Intersection, confidence: Option<FloatValue>) -> (r: AttributeValue)
        ensures
            r@ == (AttributeValueView { confidence, value: ValueView::Crossing(v@) }),
    {
        AttributeValue { confidence, value: AttributeValueVariant::Crossing(v) }
    }

    pub fn none() -> (r: AttributeValue)
        ensures
            r@ == (AttributeValueView { confidence: None, value: ValueView::Absent }),
    {
        AttributeValue { confidence: None, value: AttributeValueVariant::Absent }
    }
}

/// A namespaced, named attribute with an ordered list of values.
/// Its identity within an owner is the pair (namespace, name).
#[derive(Debug)]
pub struct Attribute {
    pub namespace: String,
    pub name: String,
    pub hint: Option<String>,
    pub is_hidden: bool,
    /// A persistent attribute survives serialization of its owner; a
    /// temporary one does not.
    pub is_persistent: bool,
    pub values: Vec<AttributeValue>,
}

#[verifier::ext_equal]
pub ghost struct AttributeView {
    pub namespace: Seq<char>,
    pub name: Seq<char>,
    pub hint: Option<Seq<char>>,
    pub is_hidden: bool,
    pub is_persistent: bool,
    pub values: Seq<AttributeValueView>,
}

impl View for Attribute {
    type V = AttributeView;

    open spec fn view(&self) -> AttributeView {
        AttributeView {
            namespace: self.namespace@,
            name: self.name@,
            hint: match self.hint {
                Some(s) => Some(s@),
                None => None,
            },
            is_hidden: self.is_hidden,
            is_persistent: self.is_persistent,
            values: self.values.deep_view(),
        }
    }
}

impl DeepView for Attribute {
    type V = AttributeView;

    open spec fn deep_view(&self) -> AttributeView {
        self.view()
    }
}

impl Clone for Attribute {
    fn clone(&self) -> (r: Self)
        ensures
            r@ == self@,
    {
        let mut values: Vec<AttributeValue> = Vec::new();
        let n = self.values.len();
        let mut i: usize = 0;
        while i < n
            invariant
                n == self.values@.len(),
                i <= n,
                values@.len() == i,
                forall|j: int| 0 <= j < i ==> (#[trigger] values@[j])@ == self.values@[j]@,
            decreases n - i,
        {
            values.push(self.values[i].clone());
            i += 1;
        }
        let hint = match &self.hint {
            Some(s) => Some(s.clone()),
            None => None,
        };
        let r = Attribute {
            namespace: self.namespace.clone(),
            name: self.name.clone(),
            hint,
            is_hidden: self.is_hidden,
            is_persistent: self.is_persistent,
            values,
        };
        proof {
            assert(r.values.deep_view() =~= self.values.deep_view());
            assert(r@ =~= self@);
        }
        r
    }
}

impl Attribute {
    pub fn new(
        namespace: String,
        name: String,
        hint: Option<String>,
        is_hidden: bool,
        is_persistent: bool,
        values: Vec<AttributeValue>,
    ) -> (r: Attribute)
        ensures
            r == (Attribute { namespace, name, hint, is_hidden, is_persistent, values }),
    {
        Attribute { namespace, name, hint, is_hidden, is_persistent, values }
    }
}

/// Why `AttributeBuilder::build` refused.
#[derive(Clone, Copy, Debug, PartialEq, Eq, Structural)]
pub enum AttributeBuilderError {
    MissingNamespace,
    MissingName,
}

/// Step-by-step construction of an `Attribute`. Namespace and name are
/// mandatory; the hint defaults to nothing, the values to an empty list,
/// and the attribute to persistent and not hidden.
#[derive(Debug)]
pub struct AttributeBuilder {
    pub namespace: Option<String>,
    pub name: Option<String>,
    pub hint: Option<String>,
    pub is_hidden: bool,
    pub is_persistent: bool,
    pub values: Vec<AttributeValue>,
}

impl Default for AttributeBuilder {
    fn default() -> (r: Self)
        ensures
            r.namespace is None,
            r.name is None,
            r.hint is None,
            !r.is_hidden,
            r.is_persistent,
            r.values@.len() == 0,
    {
        AttributeBuilder {
            namespace: None,
            name: None,
            hint: None,
            is_hidden: false,
            is_persistent: true,
            values: Vec::new(),
        }
    }
}

impl AttributeBuilder {
    pub fn namespace(self, namespace: String) -> (r: Self)
        ensures
            r == (Self { namespace: Some(namespace), ..self }),
    {
        Self { namespace: Some(namespace), ..self }
    }

    /// The namespace under its historical name.
    pub fn creator(self, creator: String) -> (r: Self)
        ensures
            r == (Self { namespace: Some(creator), ..self }),
    {
        Self { namespace: Some(creator), ..self }
    }

    pub fn name(self, name: String) -> (r: Self)
        ensures
            r == (Self { name: Some(name), ..self }),
    {
        Self { name: Some(name), ..self }
    }

    pub fn hint(self, hint: Option<String>) -> (r: Self)
        ensures
            r == (Self { hint, ..self }),
    {
        Self { hint, ..self }
    }

    pub fn is_hidden(self, is_hidden: bool) -> (r: Self)
        ensures
            r == (Self { is_hidden, ..self }),
    {
        Self { is_hidden, ..self }
    }

    pub fn is_persistent(self, is_persistent: bool) -> (r: Self)
        ensures
            r == (Self { is_persistent, ..self }),
    {
        Self { is_persistent, ..self }
    }

    pub fn values(self, values: Vec<AttributeValue>) -> (r: Self)
        ensures
            r == (Self { values, ..self }),
    {
        Self { values, ..self }
    }

    pub fn build(self) -> (r: Result<Attribute, AttributeBuilderError>)
        ensures
            match r {
                Ok(a) => {
                    &&& self.namespace == Some(a.namespace)
                    &&& self.name == Some(a.name)
                    &&& a.hint == self.hint
                    &&& a.is_hidden == self.is_hidden
                    &&& a.is_persistent == self.is_persistent
                    &&& a.values == self.values
                },
                Err(AttributeBuilderError::MissingNamespace) => self.namespace is None,
                Err(AttributeBuilderError::MissingName) => self.namespace is Some
                    && self.name is None,
            },
    {
        match self.namespace {
            None => Err(AttributeBuilderError::MissingNamespace),
            Some(namespace) => match self.name {
                None => Err(AttributeBuilderError::MissingName),
                Some(name) => Ok(
                    Attribute {
                        namespace,
                        name,
                        hint: self.hint,
                        is_hidden: self.is_hidden,
                        is_persistent: self.is_persistent,
                        values: self.values,
                    },
                ),
            },
        }
    }
}

} // verus!
