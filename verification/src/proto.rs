use vstd::prelude::*;

use crate::bbox;
use crate::float_value::FloatValue;
use crate::polygon::PolygonalArea;

verus! {

/// A point as it stands on the wire.
#[derive(Debug)]
pub struct Point {
    pub x: FloatValue,
    pub y: FloatValue,
}

/// One edge tag as it stands on the wire.
#[derive(Debug)]
pub struct PolygonalAreaTag {
    pub tag: Option<String>,
}

/// The tag list as it stands on the wire.
#[derive(Debug)]
pub struct PolygonalAreaTags {
    pub tags: Vec<PolygonalAreaTag>,
}

/// A polygon as it stands on the wire: points, and an optional tag list.
#[derive(Debug)]
pub struct WirePolygonalArea {
    pub points: Vec<Point>,
    pub tags: Option<PolygonalAreaTags>,
}

impl PolygonalArea {
    /// The polygon a wire record denotes.
    pub fn from_wire(value: &WirePolygonalArea) -> (r: PolygonalArea)
        ensures
            r@.vertices.len() == value.points@.len(),
            forall|j: int|
                0 <= j < value.points@.len() ==> #[trigger] r@.vertices[j] == (bbox::Point {
                    x: value.points@[j].x,
                    y: value.points@[j].y,
                }),
            match (&value.tags, r@.tags) {
                (Some(wt), Some(rt)) => {
                    &&& rt.len() == wt.tags@.len()
                    &&& forall|j: int|
                        0 <= j < wt.tags@.len() ==> #[trigger] rt[j] == (match wt.tags@[j].tag {
                            Some(s) => Some(s@),
                            None => None,
                        })
                },
                (None, None) => true,
                _ => false,
            },
    {
        let mut vertices: Vec<bbox::Point> = Vec::new();
        let n = value.points.len();
        let mut i: usize = 0;
        while i < n
            invariant
                n == value.points@.len(),
                i <= n,
                vertices@.len() == i,
                forall|j: int|
                    0 <= j < i ==> #[trigger] vertices@[j] == (bbox::Point {
                        x: value.points@[j].x,
                        y: value.points@[j].y,
                    }),
            decreases n - i,
        {
            vertices.push(bbox::Point { x: value.points[i].x, y: value.points[i].y });
            i += 1;
        }
        let tags = match &value.tags {
            Some(wt) => {
                let mut ts: Vec<Option<String>> = Vec::new();
                let m = wt.tags.len();
                let mut k: usize = 0;
                while k < m
                    invariant
                        value.tags matches Some(wt2) && wt2 == wt,
                        m == wt.tags@.len(),
                        k <= m,
                        ts@.len() == k,
                        forall|j: int|
                            0 <= j < k ==> #[trigger] ts@[j] == (match wt.tags@[j].tag {
                                Some(_) => Some(ts@[j]->0),
                                None => None,
                            }) && (match (ts@[j], wt.tags@[j].tag) {
                                (Some(a), Some(b)) => a@ == b@,
                                (None, None) => true,
                                _ => false,
                            }),
                    decreases m - k,
                {
                    let t = match &wt.tags[k].tag {
                        Some(s) => Some(s.clone()),
                        None => None,
                    };
                    ts.push(t);
                    k += 1;
                }
                Some(ts)
            },
            None => None,
        };
        let r = PolygonalArea { vertices, tags };
        proof {
            match (&value.tags, r@.tags) {
                (Some(wt), Some(rt)) => {
                    assert forall|j: int| 0 <= j < wt.tags@.len() implies #[trigger] rt[j] == (
                    match wt.tags@[j].tag {
                        Some(s) => Some(s@),
                        None => None,
                    }) by {}
                },
                _ => {},
            }
        }
        r
    }

    /// The wire record for a polygon.
    pub fn to_wire(&self) -> (r: WirePolygonalArea)
        ensures
            r.points@.len() == self@.vertices.len(),
            forall|j: int|
                0 <= j < self@.vertices.len() ==> #[trigger] r.points@[j].x
                    == self@.vertices[j].x && r.points@[j].y == self@.vertices[j].y,
            match (r.tags, self@.tags) {
                (Some(wt), Some(st)) => {
                    &&& wt.tags@.len() == st.len()
                    &&& forall|j: int|
                        0 <= j < st.len() ==> (match (#[trigger] wt.tags@[j].tag, st[j]) {
                            (Some(a), Some(b)) => a@ == b,
                            (None, None) => true,
                            _ => false,
                        })
                },
                (None, None) => true,
                _ => false,
            },
    {
        let mut points: Vec<Point> = Vec::new();
        let n = self.vertices.len();
        let mut i: usize = 0;
        while i < n
            invariant
                n == self.vertices@.len(),
                i <= n,
                points@.len() == i,
                forall|j: int|
                    0 <= j < i ==> #[trigger] points@[j].x == self.vertices@[j].x
                        && points@[j].y == self.vertices@[j].y,
            decreases n - i,
        {
            points.push(Point { x: self.vertices[i].x, y: self.vertices[i].y });
            i += 1;
        }
        let tags = match &self.tags {
            Some(st) => {
                let mut ts: Vec<PolygonalAreaTag> = Vec::new();
                let m = st.len();
                let mut k: usize = 0;
                while k < m
                    invariant
                        self.tags matches Some(st2) && st2 == st,
                        m == st@.len(),
                        k <= m,
                        ts@.len() == k,
                        forall|j: int|
                            0 <= j < k ==> (match ((#[trigger] ts@[j]).tag, st@[j]) {
                                (Some(a), Some(b)) => a@ == b@,
                                (None, None) => true,
                                _ => false,
                            }),
                    decreases m - k,
                {
                    let t = match &st[k] {
                        Some(s) => Some(s.clone()),
                        None => None,
                    };
                    ts.push(PolygonalAreaTag { tag: t });
                    k += 1;
                }
                Some(PolygonalAreaTags { tags: ts })
            },
            None => None,
        };
        WirePolygonalArea { points, tags }
    }
}

impl<'a> From<&'a WirePolygonalArea> for PolygonalArea {
    fn from(value: &'a WirePolygonalArea) -> (r: Self) {
        PolygonalArea::from_wire(value)
    }
}

impl<'a> vstd::std_specs::convert::FromSpecImpl<&'a WirePolygonalArea> for PolygonalArea {
    open spec fn obeys_from_spec() -> bool {
        false
    }

    open spec fn from_spec(v: &'a WirePolygonalArea) -> Self {
        vstd::pervasive::arbitrary()
    }
}

impl<'a> From<&'a PolygonalArea> for WirePolygonalArea {
    fn from(value: &'a PolygonalArea) -> (r: Self) {
        value.to_wire()
    }
}

impl<'a> vstd::std_specs::convert::FromSpecImpl<&'a PolygonalArea> for WirePolygonalArea {
    open spec fn obeys_from_spec() -> bool {
        false
    }

    open spec fn from_spec(v: &'a PolygonalArea) -> Self {
        vstd::pervasive::arbitrary()
    }
}

} // verus!
