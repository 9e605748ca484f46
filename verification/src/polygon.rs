use vstd::prelude::*;

use crate::bbox::Point;
use crate::strutil::str_eq;

verus! {

/// A polygon: an ordered vertex ring, with an optional tag per edge.
/// When the tag list is there, it is as long as the vertex list.
#[derive(Debug)]
pub struct PolygonalArea {
    pub vertices: Vec<Point>,
    pub tags: Option<Vec<Option<String>>>,
}

#[verifier::ext_equal]
pub ghost struct PolygonalAreaView {
    pub vertices: Seq<Point>,
    pub tags: Option<Seq<Option<Seq<char>>>>,
}

impl View for PolygonalArea {
    type V = PolygonalAreaView;

    open spec fn view(&self) -> PolygonalAreaView {
        PolygonalAreaView {
            vertices: self.vertices@,
            tags: match &self.tags {
                Some(t) => Some(
                    t@.map_values(
                        |o: Option<String>|
                            match o {
                                Some(s) => Some(s@),
                                None => None,
                            },
                    ),
                ),
                None => None,
            },
        }
    }
}

impl PolygonalArea {
    pub open spec fn wf(&self) -> bool {
        match self@.tags {
            Some(t) => t.len() == self@.vertices.len(),
            None => true,
        }
    }

    pub fn new(vertices: Vec<Point>, tags: Option<Vec<Option<String>>>) -> (r: PolygonalArea)
        requires
            match tags {
                Some(t) => t@.len() == vertices@.len(),
                None => true,
            },
        ensures
            r.wf(),
            r.vertices == vertices,
            r.tags == tags,
    {
        PolygonalArea { vertices, tags }
    }

    pub fn get_vertices(&self) -> (r: &Vec<Point>)
        ensures
            r@ == self@.vertices,
    {
        &self.vertices
    }

    pub fn get_tags(&self) -> (r: &Option<Vec<Option<String>>>)
        ensures
            match r {
                Some(t) => self@.tags == Some(t.deep_view()),
                None => self@.tags is None,
            },
    {
        proof {
            match &self.tags {
                Some(t) => {
                    assert(self@.tags->0 =~= t.deep_view());
                },
                None => {},
            }
        }
        &self.tags
    }
}

impl PartialEq for PolygonalArea {
    fn eq(&self, other: &Self) -> (r: bool) {
        let n = self.vertices.len();
        if n != other.vertices.len() {
            proof {
                assert(self@ != other@);
            }
            return false;
        }
        let mut i: usize = 0;
        while i < n
            invariant
                n == self.vertices@.len(),
                n == other.vertices@.len(),
                i <= n,
                forall|j: int| 0 <= j < i ==> #[trigger] self.vertices@[j] == other.vertices@[j],
            decreases n - i,
        {
            if !(self.vertices[i] == other.vertices[i]) {
                proof {
                    assert(self@.vertices[i as int] != other@.vertices[i as int]);
                }
                return false;
            }
            i += 1;
        }
        proof {
            assert(self@.vertices =~= other@.vertices);
        }
        match (&self.tags, &other.tags) {
            (None, None) => {
                proof {
                    assert(self@ =~= other@);
                }
                true
            },
            (Some(a), Some(b)) => {
                let m = a.len();
                if m != b.len() {
                    proof {
                        assert(self@.tags->0.len() != other@.tags->0.len());
                    }
                    return false;
                }
                let mut k: usize = 0;
                while k < m
                    invariant
                        self.tags matches Some(av) && av == a,
                        other.tags matches Some(bv) && bv == b,
                        m == a@.len(),
                        m == b@.len(),
                        k <= m,
                        self@.vertices == other@.vertices,
                        forall|j: int|
                            0 <= j < k ==> #[trigger] self@.tags->0[j] == other@.tags->0[j],
                    decreases m - k,
                {
                    let same = match (&a[k], &b[k]) {
                        (None, None) => true,
                        (Some(x), Some(y)) => str_eq(x.as_str(), y.as_str()),
                        _ => false,
                    };
                    if !same {
                        proof {
                            assert(self@.tags->0[k as int] != other@.tags->0[k as int]);
                        }
                        return false;
                    }
                    proof {
                        assert(self@.tags->0[k as int] == other@.tags->0[k as int]);
                    }
                    k += 1;
                }
                proof {
                    assert(self@.tags->0 =~= other@.tags->0);
                    assert(self@ =~= other@);
                }
                true
            },
            _ => {
                proof {
                    assert(self@ != other@);
                }
                false
            },
        }
    }
}

impl vstd::std_specs::cmp::PartialEqSpecImpl for PolygonalArea {
    open spec fn obeys_eq_spec() -> bool {
        true
    }

    open spec fn eq_spec(&self, other: &Self) -> bool {
        self@ == other@
    }
}

} // verus!
