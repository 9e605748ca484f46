use vstd::prelude::*;

use crate::attribute::{Attribute, AttributeView};
use crate::strutil::{spec_contains_str, str_eq};

verus! {

/// The key under which an attribute is filed: its namespace and name.
pub open spec fn key_of(a: AttributeView) -> (Seq<char>, Seq<char>) {
    (a.namespace, a.name)
}

/// The attribute table of a frame or of an object: attributes keyed by
/// (namespace, name), each key held at most once. The abstraction is the
/// map from keys to attribute views.
#[derive(Debug)]
pub struct AttributeSet {
    pub entries: Vec<Attribute>,
}

impl AttributeSet {
    pub open spec fn wf(&self) -> bool {
        forall|i: int, j: int|
            0 <= i < j < self.entries@.len() ==> key_of((#[trigger] self.entries@[i])@) != key_of(
                (#[trigger] self.entries@[j])@,
            )
    }

    pub open spec fn spec_contains(&self, k: (Seq<char>, Seq<char>)) -> bool {
        exists|i: int| 0 <= i < self.entries@.len() && key_of((#[trigger] self.entries@[i])@) == k
    }

    pub open spec fn index_of(&self, k: (Seq<char>, Seq<char>)) -> int {
        choose|i: int| 0 <= i < self.entries@.len() && key_of((#[trigger] self.entries@[i])@) == k
    }

    pub open spec fn seq(&self) -> Seq<Attribute> {
        self.entries@
    }

    pub proof fn lemma_index_unique(&self, i: int, j: int)
        requires
            self.wf(),
            0 <= i < self.entries@.len(),
            0 <= j < self.entries@.len(),
            key_of(self.entries@[i]@) == key_of(self.entries@[j]@),
        ensures
            i == j,
    {
    }

    pub proof fn lemma_seq_view(&self, i: int)
        requires
            self.wf(),
            0 <= i < self.seq().len(),
        ensures
            self@.contains_key(key_of(self.seq()[i]@)),
            self@[key_of(self.seq()[i]@)] == self.seq()[i]@,
    {
        let k = key_of(self.seq()[i]@);
        assert(self.spec_contains(k));
        self.lemma_index_unique(i, self.index_of(k));
    }

    pub fn new() -> (r: AttributeSet)
        ensures
            r.wf(),
            r@ =~= Map::<(Seq<char>, Seq<char>), AttributeView>::empty(),
            r.seq().len() == 0,
    {
        AttributeSet { entries: Vec::new() }
    }

    pub fn len(&self) -> (r: usize)
        ensures
            r == self.seq().len(),
    {
        self.entries.len()
    }

    pub fn attr_at(&self, i: usize) -> (r: &Attribute)
        requires
            self.wf(),
            i < self.seq().len(),
        ensures
            *r == self.seq()[i as int],
            self@.contains_key(key_of(r@)),
            self@[key_of(r@)] == r@,
    {
        proof {
            self.lemma_seq_view(i as int);
        }
        &self.entries[i]
    }

    fn find(&self, namespace: &str, name: &str) -> (r: Option<usize>)
        requires
            self.wf(),
        ensures
            match r {
                Some(i) => i < self.seq().len() && key_of(self.seq()[i as int]@) == (
                    namespace@,
                    name@,
                ),
                None => !self.spec_contains((namespace@, name@)),
            },
    {
        let n = self.entries.len();
        let mut i: usize = 0;
        while i < n
            invariant
                n == self.seq().len(),
                i <= n,
                forall|j: int|
                    0 <= j < i ==> key_of((#[trigger] self.seq()[j])@) != (namespace@, name@),
            decreases n - i,
        {
            if str_eq(self.entries[i].namespace.as_str(), namespace) && str_eq(
                self.entries[i].name.as_str(),
                name,
            ) {
                return Some(i);
            }
            i += 1;
        }
        None
    }

    pub fn get(&self, namespace: &str, name: &str) -> (r: Option<&Attribute>)
        requires
            self.wf(),
        ensures
            match r {
                Some(a) => {
                    &&& self@.contains_key((namespace@, name@))
                    &&& a@ == self@.index((namespace@, name@))
                    &&& key_of(a@) == (namespace@, name@)
                },
                None => !self@.contains_key((namespace@, name@)),
            },
    {
        match self.find(namespace, name) {
            Some(i) => {
                proof {
                    assert(self.spec_contains((namespace@, name@)));
                    self.lemma_index_unique(i as int, self.index_of((namespace@, name@)));
                }
                Some(&self.entries[i])
            },
            None => None,
        }
    }

    /// Files `a` under its own key, replacing and returning what was there.
    pub fn set(&mut self, a: Attribute) -> (r: Option<Attribute>)
        requires
            old(self).wf(),
        ensures
            final(self).wf(),
            final(self)@ =~= old(self)@.insert(key_of(a@), a@),
            match r {
                Some(b) => old(self)@.contains_key(key_of(a@)) && b@ == old(self)@[key_of(a@)],
                None => !old(self)@.contains_key(key_of(a@)),
            },
    {
        let ghost av = a@;
        let ghost k = key_of(a@);
        let prev = self.remove(a.namespace.as_str(), a.name.as_str());
        let ghost mid = *self;
        self.entries.push(a);
        proof {
            let fself = *final(self);
            assert(fself.entries@ =~= mid.entries@.push(a));
            assert forall|x: int, y: int|
                0 <= x < y < fself.entries@.len() implies key_of(
                (#[trigger] fself.entries@[x])@) != key_of((#[trigger] fself.entries@[y])@) by {
                if y < fself.entries@.len() - 1 {
                    assert(key_of(mid.entries@[x]@) != key_of(mid.entries@[y]@));
                } else {
                    assert(key_of(fself.entries@[y]@) == k);
                    assert(mid.entries@[x] == fself.entries@[x]);
                    assert(mid.spec_contains(key_of(fself.entries@[x]@)));
                    assert(!mid@.contains_key(k));
                }
            }
            assert forall|k2: (Seq<char>, Seq<char>)| #[trigger]
                fself@.contains_key(k2) == mid@.insert(k, av).contains_key(k2) && (
            fself@.contains_key(k2) ==> fself@[k2] == mid@.insert(k, av)[k2]) by {
                let n = mid.entries@.len();
                if k2 == k {
                    assert(key_of(fself.entries@[n as int]@) == k);
                    assert(fself.spec_contains(k));
                    fself.lemma_index_unique(n as int, fself.index_of(k));
                } else {
                    if mid.spec_contains(k2) {
                        let j = mid.index_of(k2);
                        assert(key_of(fself.entries@[j]@) == k2);
                        assert(fself.spec_contains(k2));
                        fself.lemma_index_unique(j, fself.index_of(k2));
                        mid.lemma_index_unique(j, mid.index_of(k2));
                    }
                    if fself.spec_contains(k2) {
                        let j = fself.index_of(k2);
                        assert(j < n);
                        assert(key_of(mid.entries@[j]@) == k2);
                        assert(mid.spec_contains(k2));
                    }
                }
            }
            assert(fself@ =~= mid@.insert(k, av));
            assert(mid@.insert(k, av) =~= old(self)@.insert(k, av));
            assert(fself@ =~= old(self)@.insert(k, av));
        }
        prev
    }

    pub fn remove(&mut self, namespace: &str, name: &str) -> (r: Option<Attribute>)
        requires
            old(self).wf(),
        ensures
            final(self).wf(),
            final(self)@ =~= old(self)@.remove((namespace@, name@)),
            final(self).seq().len() <= old(self).seq().len(),
            match r {
                Some(a) => {
                    &&& old(self)@.contains_key((namespace@, name@))
                    &&& a@ == old(self)@[(namespace@, name@)]
                    &&& key_of(a@) == (namespace@, name@)
                    &&& final(self).seq().len() == old(self).seq().len() - 1
                },
                None => {
                    &&& !old(self)@.contains_key((namespace@, name@))
                    &&& *final(self) == *old(self)
                },
            },
    {
        let ghost k = (namespace@, name@);
        let idx_opt = self.find(namespace, name);
        match idx_opt {
            Some(i) => {
                proof {
                    assert(self.spec_contains(k));
                    self.lemma_index_unique(i as int, self.index_of(k));
                }
                let a = self.entries.swap_remove(i);
                proof {
                    let fself = *final(self);
                    let oldm = *old(self);
                    let n = oldm.entries@.len();
                    assert forall|x: int, y: int|
                        0 <= x < y < fself.entries@.len() implies key_of(
                    (#[trigger] fself.entries@[x])@) != key_of(
                        (#[trigger] fself.entries@[y])@,
                    ) by {
                        let x2: int = if x == i { n - 1 } else { x };
                        let y2: int = if y == i { n - 1 } else { y };
                        assert(fself.entries@[x] == oldm.entries@[x2]);
                        assert(fself.entries@[y] == oldm.entries@[y2]);
                    }
                    assert forall|k2: (Seq<char>, Seq<char>)| #[trigger]
                        fself@.contains_key(k2) == oldm@.remove(k).contains_key(k2) && (
                    fself@.contains_key(k2) ==> fself@[k2] == oldm@.remove(k)[k2]) by {
                        if k2 != k {
                            if oldm.spec_contains(k2) {
                                let j = oldm.index_of(k2);
                                let j2: int = if j == n - 1 { i as int } else { j };
                                assert(j != i);
                                if j == n - 1 {
                                    assert(fself.entries@[i as int] == oldm.entries@[n - 1]);
                                } else {
                                    assert(fself.entries@[j] == oldm.entries@[j]);
                                }
                                assert(key_of(fself.entries@[j2]@) == k2);
                                assert(fself.spec_contains(k2));
                                fself.lemma_index_unique(j2, fself.index_of(k2));
                            }
                            if fself.spec_contains(k2) {
                                let j = fself.index_of(k2);
                                let j2: int = if j == i { n - 1 } else { j };
                                assert(fself.entries@[j] == oldm.entries@[j2]);
                                assert(oldm.spec_contains(k2));
                            }
                        } else {
                            if fself.spec_contains(k) {
                                let j = fself.index_of(k);
                                let j2: int = if j == i { n - 1 } else { j };
                                assert(fself.entries@[j] == oldm.entries@[j2]);
                                assert(j2 != i);
                                oldm.lemma_index_unique(j2, i as int);
                            }
                        }
                    }
                    assert(fself@ =~= oldm@.remove(k));
                }
                Some(a)
            },
            None => {
                proof {
                    assert(!self@.contains_key(k));
                    assert(self@ =~= self@.remove(k));
                }
                None
            },
        }
    }

    pub fn clear(&mut self)
        ensures
            final(self).wf(),
            final(self)@ =~= Map::<(Seq<char>, Seq<char>), AttributeView>::empty(),
            final(self).seq().len() == 0,
    {
        self.entries.clear();
    }

    /// The (namespace, name) pairs of all attributes, in table order.
    pub fn keys(&self) -> (r: Vec<(String, String)>)
        requires
            self.wf(),
        ensures
            r@.len() == self.seq().len(),
            forall|j: int|
                0 <= j < r@.len() ==> ((#[trigger] r@[j]).0@, r@[j].1@) == key_of(self.seq()[j]@),
    {
        let mut r: Vec<(String, String)> = Vec::new();
        let n = self.entries.len();
        let mut i: usize = 0;
        while i < n
            invariant
                n == self.seq().len(),
                i <= n,
                r@.len() == i,
                forall|j: int|
                    0 <= j < i ==> ((#[trigger] r@[j]).0@, r@[j].1@) == key_of(self.seq()[j]@),
            decreases n - i,
        {
            r.push((self.entries[i].namespace.clone(), self.entries[i].name.clone()));
            i += 1;
        }
        r
    }
}

/// The keys of `s` whose attribute satisfies `spec_hint_in`-style
/// membership tests are collected by the find functions below; each has
/// its own selection predicate.
pub open spec fn pair_keys_view(s: Seq<(String, String)>) -> Seq<(Seq<char>, Seq<char>)> {
    Seq::new(s.len(), |i: int| (s[i].0@, s[i].1@))
}

/// Whether `h` occurs in the hint list `hs`.
pub open spec fn spec_hint_in(h: Option<Seq<char>>, hs: Seq<Option<Seq<char>>>) -> bool {
    hs.contains(h)
}

fn hint_in(h: &Option<String>, hs: &Vec<Option<String>>) -> (r: bool)
    ensures
        r == spec_hint_in(
            match h {
                Some(x) => Some(x@),
                None => None,
            },
            hs.deep_view(),
        ),
{
    let ghost hv: Option<Seq<char>> = match h {
        Some(x) => Some(x@),
        None => None,
    };
    let n = hs.len();
    let mut i: usize = 0;
    while i < n
        invariant
            n == hs@.len(),
            i <= n,
            hv == (match h {
                Some(x) => Some(x@),
                None => None,
            }),
            forall|j: int| 0 <= j < i ==> #[trigger] hs.deep_view()[j] != hv,
        decreases n - i,
    {
        let same = match (h, &hs[i]) {
            (None, None) => true,
            (Some(a), Some(b)) => str_eq(a.as_str(), b.as_str()),
            _ => false,
        };
        if same {
            proof {
                assert(hs.deep_view()[i as int] == hv);
                assert(hs.deep_view().contains(hv));
            }
            return true;
        }
        proof {
            assert(hs.deep_view()[i as int] == hs@[i as int].deep_view());
        }
        i += 1;
    }
    proof {
        if hs.deep_view().contains(hv) {
            let w = choose|w: int| 0 <= w < hs.deep_view().len() && hs.deep_view()[w] == hv;
            assert(hs.deep_view()[w] == hv);
        }
    }
    false
}

fn name_in(name: &String, names: &Vec<String>) -> (r: bool)
    ensures
        r == spec_contains_str(names.deep_view(), name@),
{
    let n = names.len();
    let mut i: usize = 0;
    while i < n
        invariant
            n == names@.len(),
            i <= n,
            forall|j: int| 0 <= j < i ==> #[trigger] names.deep_view()[j] != name@,
        decreases n - i,
    {
        if str_eq(name.as_str(), names[i].as_str()) {
            proof {
                assert(names.deep_view()[i as int] == name@);
                assert(names.deep_view().contains(name@));
            }
            return true;
        }
        proof {
            assert(names.deep_view()[i as int] == names@[i as int].deep_view());
        }
        i += 1;
    }
    proof {
        if names.deep_view().contains(name@) {
            let w = choose|w: int|
                0 <= w < names.deep_view().len() && names.deep_view()[w] == name@;
            assert(names.deep_view()[w] == name@);
        }
    }
    false
}

/// The keys of the attributes filed under namespace `ns`, in table order.
pub open spec fn spec_keys_where_ns(s: Seq<Attribute>, ns: Seq<char>) -> Seq<
    (Seq<char>, Seq<char>),
>
    decreases s.len(),
{
    if s.len() == 0 {
        Seq::empty()
    } else {
        let rest = spec_keys_where_ns(s.drop_last(), ns);
        if s.last()@.namespace == ns {
            rest.push(key_of(s.last()@))
        } else {
            rest
        }
    }
}

/// The keys of the attributes whose name is listed, in table order.
pub open spec fn spec_keys_where_name(s: Seq<Attribute>, names: Seq<Seq<char>>) -> Seq<
    (Seq<char>, Seq<char>),
>
    decreases s.len(),
{
    if s.len() == 0 {
        Seq::empty()
    } else {
        let rest = spec_keys_where_name(s.drop_last(), names);
        if spec_contains_str(names, s.last()@.name) {
            rest.push(key_of(s.last()@))
        } else {
            rest
        }
    }
}

/// The keys of the attributes whose hint is listed, in table order.
pub open spec fn spec_keys_where_hint(s: Seq<Attribute>, hints: Seq<Option<Seq<char>>>) -> Seq<
    (Seq<char>, Seq<char>),
>
    decreases s.len(),
{
    if s.len() == 0 {
        Seq::empty()
    } else {
        let rest = spec_keys_where_hint(s.drop_last(), hints);
        if spec_hint_in(s.last()@.hint, hints) {
            rest.push(key_of(s.last()@))
        } else {
            rest
        }
    }
}

proof fn lemma_keys_where_ns_membership(s: Seq<Attribute>, ns: Seq<char>, k: (Seq<char>, Seq<char>))
    ensures
        spec_keys_where_ns(s, ns).contains(k) <==> exists|i: int|
            0 <= i < s.len() && key_of((#[trigger] s[i])@) == k && s[i]@.namespace == ns,
    decreases s.len(),
{
    if s.len() > 0 {
        lemma_keys_where_ns_membership(s.drop_last(), ns, k);
        let rest = spec_keys_where_ns(s.drop_last(), ns);
        if spec_keys_where_ns(s, ns).contains(k) {
            if s.last()@.namespace == ns && k == key_of(s.last()@) {
                assert(key_of(s[s.len() - 1]@) == k && s[s.len() - 1]@.namespace == ns);
            } else {
                if rest.contains(k) {
                    let i = choose|i: int|
                        0 <= i < s.drop_last().len() && key_of(
                            (#[trigger] s.drop_last()[i])@,
                        ) == k && s.drop_last()[i]@.namespace == ns;
                    assert(s[i] == s.drop_last()[i]);
                } else {
                    let w = choose|w: int|
                        0 <= w < spec_keys_where_ns(s, ns).len() && spec_keys_where_ns(s, ns)[w]
                            == k;
                    if s.last()@.namespace == ns {
                        assert(spec_keys_where_ns(s, ns) == rest.push(key_of(s.last()@)));
                        assert(w < rest.len());
                        assert(rest.contains(k));
                    }
                    assert(false);
                }
            }
        }
        if exists|i: int|
            0 <= i < s.len() && key_of((#[trigger] s[i])@) == k && s[i]@.namespace == ns {
            let i = choose|i: int|
                0 <= i < s.len() && key_of((#[trigger] s[i])@) == k && s[i]@.namespace == ns;
            if i < s.len() - 1 {
                assert(s.drop_last()[i] == s[i]);
                assert(rest.contains(k));
                let w = choose|w: int| 0 <= w < rest.len() && rest[w] == k;
                if s.last()@.namespace == ns {
                    assert(spec_keys_where_ns(s, ns)[w] == k);
                } else {
                    assert(spec_keys_where_ns(s, ns)[w] == k);
                }
                assert(spec_keys_where_ns(s, ns).contains(k));
            } else {
                assert(s.last()@.namespace == ns);
                let m = spec_keys_where_ns(s, ns);
                assert(m[m.len() - 1] == k);
                assert(m.contains(k));
            }
        }
    }
}

proof fn lemma_keys_where_name_membership(
    s: Seq<Attribute>,
    names: Seq<Seq<char>>,
    k: (Seq<char>, Seq<char>),
)
    ensures
        spec_keys_where_name(s, names).contains(k) <==> exists|i: int|
            0 <= i < s.len() && key_of((#[trigger] s[i])@) == k && spec_contains_str(
                names,
                s[i]@.name,
            ),
    decreases s.len(),
{
    if s.len() > 0 {
        lemma_keys_where_name_membership(s.drop_last(), names, k);
        let rest = spec_keys_where_name(s.drop_last(), names);
        if spec_keys_where_name(s, names).contains(k) {
            if spec_contains_str(names, s.last()@.name) && k == key_of(s.last()@) {
                assert(key_of(s[s.len() - 1]@) == k);
            } else {
                if rest.contains(k) {
                    let i = choose|i: int|
                        0 <= i < s.drop_last().len() && key_of(
                            (#[trigger] s.drop_last()[i])@,
                        ) == k && spec_contains_str(names, s.drop_last()[i]@.name);
                    assert(s[i] == s.drop_last()[i]);
                } else {
                    let w = choose|w: int|
                        0 <= w < spec_keys_where_name(s, names).len() && spec_keys_where_name(
                            s,
                            names,
                        )[w] == k;
                    if spec_contains_str(names, s.last()@.name) {
                        assert(w < rest.len());
                        assert(rest.contains(k));
                    }
                    assert(false);
                }
            }
        }
        if exists|i: int|
            0 <= i < s.len() && key_of((#[trigger] s[i])@) == k && spec_contains_str(
                names,
                s[i]@.name,
            ) {
            let i = choose|i: int|
                0 <= i < s.len() && key_of((#[trigger] s[i])@) == k && spec_contains_str(
                    names,
                    s[i]@.name,
                );
            if i < s.len() - 1 {
                assert(s.drop_last()[i] == s[i]);
                assert(rest.contains(k));
                let w = choose|w: int| 0 <= w < rest.len() && rest[w] == k;
                assert(spec_keys_where_name(s, names)[w] == k);
                assert(spec_keys_where_name(s, names).contains(k));
            } else {
                let m = spec_keys_where_name(s, names);
                assert(m[m.len() - 1] == k);
                assert(m.contains(k));
            }
        }
    }
}

proof fn lemma_keys_where_hint_membership(
    s: Seq<Attribute>,
    hints: Seq<Option<Seq<char>>>,
    k: (Seq<char>, Seq<char>),
)
    ensures
        spec_keys_where_hint(s, hints).contains(k) <==> exists|i: int|
            0 <= i < s.len() && key_of((#[trigger] s[i])@) == k && spec_hint_in(
                s[i]@.hint,
                hints,
            ),
    decreases s.len(),
{
    if s.len() > 0 {
        lemma_keys_where_hint_membership(s.drop_last(), hints, k);
        let rest = spec_keys_where_hint(s.drop_last(), hints);
        if spec_keys_where_hint(s, hints).contains(k) {
            if spec_hint_in(s.last()@.hint, hints) && k == key_of(s.last()@) {
                assert(key_of(s[s.len() - 1]@) == k);
            } else {
                if rest.contains(k) {
                    let i = choose|i: int|
                        0 <= i < s.drop_last().len() && key_of(
                            (#[trigger] s.drop_last()[i])@,
                        ) == k && spec_hint_in(s.drop_last()[i]@.hint, hints);
                    assert(s[i] == s.drop_last()[i]);
                } else {
                    let w = choose|w: int|
                        0 <= w < spec_keys_where_hint(s, hints).len() && spec_keys_where_hint(
                            s,
                            hints,
                        )[w] == k;
                    if spec_hint_in(s.last()@.hint, hints) {
                        assert(w < rest.len());
                        assert(rest.contains(k));
                    }
                    assert(false);
                }
            }
        }
        if exists|i: int|
            0 <= i < s.len() && key_of((#[trigger] s[i])@) == k && spec_hint_in(
                s[i]@.hint,
                hints,
            ) {
            let i = choose|i: int|
                0 <= i < s.len() && key_of((#[trigger] s[i])@) == k && spec_hint_in(
                    s[i]@.hint,
                    hints,
                );
            if i < s.len() - 1 {
                assert(s.drop_last()[i] == s[i]);
                assert(rest.contains(k));
                let w = choose|w: int| 0 <= w < rest.len() && rest[w] == k;
                assert(spec_keys_where_hint(s, hints)[w] == k);
                assert(spec_keys_where_hint(s, hints).contains(k));
            } else {
                let m = spec_keys_where_hint(s, hints);
                assert(m[m.len() - 1] == k);
                assert(m.contains(k));
            }
        }
    }
}

impl AttributeSet {
    /// The keys filed under namespace `ns`, in table order.
    pub fn keys_with_ns(&self, ns: &str) -> (r: Vec<(String, String)>)
        requires
            self.wf(),
        ensures
            pair_keys_view(r@) =~= spec_keys_where_ns(self.seq(), ns@),
    {
        let ghost sv = self.seq();
        let mut r: Vec<(String, String)> = Vec::new();
        let n = self.entries.len();
        let mut i: usize = 0;
        while i < n
            invariant
                self.wf(),
                sv == self.seq(),
                n == sv.len(),
                i <= n,
                pair_keys_view(r@) =~= spec_keys_where_ns(sv.take(i as int), ns@),
            decreases n - i,
        {
            proof {
                assert(sv.take(i + 1).drop_last() =~= sv.take(i as int));
                assert(sv.take(i + 1).last() == sv[i as int]);
            }
            if str_eq(self.entries[i].namespace.as_str(), ns) {
                r.push((self.entries[i].namespace.clone(), self.entries[i].name.clone()));
            }
            proof {
                assert(pair_keys_view(r@) =~= spec_keys_where_ns(sv.take(i + 1), ns@));
            }
            i += 1;
        }
        proof {
            assert(sv.take(n as int) =~= sv);
        }
        r
    }

    /// The keys whose attribute name is listed, in table order.
    pub fn keys_with_names(&self, names: &Vec<String>) -> (r: Vec<(String, String)>)
        requires
            self.wf(),
        ensures
            pair_keys_view(r@) =~= spec_keys_where_name(self.seq(), names.deep_view()),
    {
        let ghost sv = self.seq();
        let mut r: Vec<(String, String)> = Vec::new();
        let n = self.entries.len();
        let mut i: usize = 0;
        while i < n
            invariant
                self.wf(),
                sv == self.seq(),
                n == sv.len(),
                i <= n,
                pair_keys_view(r@) =~= spec_keys_where_name(sv.take(i as int), names.deep_view()),
            decreases n - i,
        {
            proof {
                assert(sv.take(i + 1).drop_last() =~= sv.take(i as int));
                assert(sv.take(i + 1).last() == sv[i as int]);
            }
            if name_in(&self.entries[i].name, names) {
                r.push((self.entries[i].namespace.clone(), self.entries[i].name.clone()));
            }
            proof {
                assert(pair_keys_view(r@) =~= spec_keys_where_name(
                    sv.take(i + 1),
                    names.deep_view(),
                ));
            }
            i += 1;
        }
        proof {
            assert(sv.take(n as int) =~= sv);
        }
        r
    }

    /// The keys whose attribute hint is listed, in table order.
    pub fn keys_with_hints(&self, hints: &Vec<Option<String>>) -> (r: Vec<(String, String)>)
        requires
            self.wf(),
        ensures
            pair_keys_view(r@) =~= spec_keys_where_hint(self.seq(), hints.deep_view()),
    {
        let ghost sv = self.seq();
        let mut r: Vec<(String, String)> = Vec::new();
        let n = self.entries.len();
        let mut i: usize = 0;
        while i < n
            invariant
                self.wf(),
                sv == self.seq(),
                n == sv.len(),
                i <= n,
                pair_keys_view(r@) =~= spec_keys_where_hint(sv.take(i as int), hints.deep_view()),
            decreases n - i,
        {
            proof {
                assert(sv.take(i + 1).drop_last() =~= sv.take(i as int));
                assert(sv.take(i + 1).last() == sv[i as int]);
            }
            if hint_in(&self.entries[i].hint, hints) {
                r.push((self.entries[i].namespace.clone(), self.entries[i].name.clone()));
            }
            proof {
                assert(pair_keys_view(r@) =~= spec_keys_where_hint(
                    sv.take(i + 1),
                    hints.deep_view(),
                ));
            }
            i += 1;
        }
        proof {
            assert(sv.take(n as int) =~= sv);
        }
        r
    }

    /// Removes the listed keys, in order.
    fn remove_listed(&mut self, keys: &Vec<(String, String)>)
        requires
            old(self).wf(),
        ensures
            final(self).wf(),
            final(self)@ =~= Map::new(
                |k: (Seq<char>, Seq<char>)|
                    old(self)@.contains_key(k) && !pair_keys_view(keys@).contains(k),
                |k: (Seq<char>, Seq<char>)| old(self)@.index(k),
            ),
    {
        let ghost pre = *old(self);
        let ghost kv = pair_keys_view(keys@);
        let n = keys.len();
        let mut j: usize = 0;
        proof {
            assert(self@ =~= Map::new(
                |k: (Seq<char>, Seq<char>)|
                    pre@.contains_key(k) && !kv.take(0).contains(k),
                |k: (Seq<char>, Seq<char>)| pre@.index(k),
            ));
        }
        while j < n
            invariant
                n == keys@.len(),
                kv == pair_keys_view(keys@),
                j <= n,
                self.wf(),
                self@ =~= Map::new(
                    |k: (Seq<char>, Seq<char>)|
                        pre@.contains_key(k) && !kv.take(j as int).contains(k),
                    |k: (Seq<char>, Seq<char>)| pre@.index(k),
                ),
            decreases n - j,
        {
            proof {
                assert(kv.take(j + 1).drop_last() =~= kv.take(j as int));
                assert(kv.take(j + 1).last() == kv[j as int]);
                assert(kv[j as int] == (keys@[j as int].0@, keys@[j as int].1@));
            }
            let ghost snap = self@;
            self.remove(keys[j].0.as_str(), keys[j].1.as_str());
            proof {
                assert forall|k: (Seq<char>, Seq<char>)|
                    #[trigger] kv.take(j + 1).contains(k) == (kv.take(j as int).contains(k) || k
                    == kv[j as int]) by {
                    if kv.take(j + 1).contains(k) {
                        let w = choose|w: int|
                            0 <= w < j + 1 && #[trigger] kv.take(j + 1)[w] == k;
                        if w < j {
                            assert(kv.take(j as int)[w] == k);
                        }
                    } else {
                        if kv.take(j as int).contains(k) {
                            let w = choose|w: int|
                                0 <= w < j && #[trigger] kv.take(j as int)[w] == k;
                            assert(kv.take(j + 1)[w] == k);
                        }
                        if k == kv[j as int] {
                            assert(kv.take(j + 1)[j as int] == k);
                        }
                    }
                }
                assert(self@ =~= Map::new(
                    |k: (Seq<char>, Seq<char>)|
                        pre@.contains_key(k) && !kv.take(j + 1).contains(k),
                    |k: (Seq<char>, Seq<char>)| pre@.index(k),
                ));
            }
            j += 1;
        }
        proof {
            assert(kv.take(n as int) =~= kv);
        }
    }

    /// Removes every attribute filed under namespace `ns`.
    pub fn delete_with_ns(&mut self, ns: &str)
        requires
            old(self).wf(),
        ensures
            final(self).wf(),
            final(self)@ =~= Map::new(
                |k: (Seq<char>, Seq<char>)| old(self)@.contains_key(k) && k.0 != ns@,
                |k: (Seq<char>, Seq<char>)| old(self)@.index(k),
            ),
    {
        let keys = self.keys_with_ns(ns);
        self.remove_listed(&keys);
        proof {
            assert forall|k: (Seq<char>, Seq<char>)|
                old(self)@.contains_key(k) implies #[trigger] pair_keys_view(keys@).contains(k)
                == (k.0 == ns@) by {
                lemma_keys_where_ns_membership(old(self).seq(), ns@, k);
                if k.0 == ns@ {
                    let i = old(self).index_of(k);
                    assert(key_of(old(self).seq()[i]@) == k);
                    assert(old(self).seq()[i]@.namespace == ns@);
                }
                if pair_keys_view(keys@).contains(k) {
                    let i = choose|i: int|
                        0 <= i < old(self).seq().len() && key_of(
                            (#[trigger] old(self).seq()[i])@,
                        ) == k && old(self).seq()[i]@.namespace == ns@;
                }
            }
            assert(final(self)@ =~= Map::new(
                |k: (Seq<char>, Seq<char>)| old(self)@.contains_key(k) && k.0 != ns@,
                |k: (Seq<char>, Seq<char>)| old(self)@.index(k),
            ));
        }
    }

    /// Removes every attribute whose name is listed.
    pub fn delete_with_names(&mut self, names: &Vec<String>)
        requires
            old(self).wf(),
        ensures
            final(self).wf(),
            final(self)@ =~= Map::new(
                |k: (Seq<char>, Seq<char>)|
                    old(self)@.contains_key(k) && !spec_contains_str(names.deep_view(), k.1),
                |k: (Seq<char>, Seq<char>)| old(self)@.index(k),
            ),
    {
        let keys = self.keys_with_names(names);
        self.remove_listed(&keys);
        proof {
            assert forall|k: (Seq<char>, Seq<char>)|
                old(self)@.contains_key(k) implies #[trigger] pair_keys_view(keys@).contains(k)
                == spec_contains_str(names.deep_view(), k.1) by {
                lemma_keys_where_name_membership(old(self).seq(), names.deep_view(), k);
                if spec_contains_str(names.deep_view(), k.1) {
                    let i = old(self).index_of(k);
                    assert(key_of(old(self).seq()[i]@) == k);
                }
                if pair_keys_view(keys@).contains(k) {
                    let i = choose|i: int|
                        0 <= i < old(self).seq().len() && key_of(
                            (#[trigger] old(self).seq()[i])@,
                        ) == k && spec_contains_str(
                            names.deep_view(),
                            old(self).seq()[i]@.name,
                        );
                }
            }
            assert(final(self)@ =~= Map::new(
                |k: (Seq<char>, Seq<char>)|
                    old(self)@.contains_key(k) && !spec_contains_str(names.deep_view(), k.1),
                |k: (Seq<char>, Seq<char>)| old(self)@.index(k),
            ));
        }
    }

    /// Removes every attribute whose hint is listed.
    pub fn delete_with_hints(&mut self, hints: &Vec<Option<String>>)
        requires
            old(self).wf(),
        ensures
            final(self).wf(),
            final(self)@ =~= Map::new(
                |k: (Seq<char>, Seq<char>)|
                    old(self)@.contains_key(k) && !spec_hint_in(
                        old(self)@.index(k).hint,
                        hints.deep_view(),
                    ),
                |k: (Seq<char>, Seq<char>)| old(self)@.index(k),
            ),
    {
        let keys = self.keys_with_hints(hints);
        self.remove_listed(&keys);
        proof {
            assert forall|k: (Seq<char>, Seq<char>)|
                old(self)@.contains_key(k) implies #[trigger] pair_keys_view(keys@).contains(k)
                == spec_hint_in(old(self)@.index(k).hint, hints.deep_view()) by {
                lemma_keys_where_hint_membership(old(self).seq(), hints.deep_view(), k);
                if spec_hint_in(old(self)@.index(k).hint, hints.deep_view()) {
                    let i = old(self).index_of(k);
                    assert(key_of(old(self).seq()[i]@) == k);
                    old(self).lemma_seq_view(i);
                }
                if pair_keys_view(keys@).contains(k) {
                    let i = choose|i: int|
                        0 <= i < old(self).seq().len() && key_of(
                            (#[trigger] old(self).seq()[i])@,
                        ) == k && spec_hint_in(old(self).seq()[i]@.hint, hints.deep_view());
                    old(self).lemma_seq_view(i);
                }
            }
            assert(final(self)@ =~= Map::new(
                |k: (Seq<char>, Seq<char>)|
                    old(self)@.contains_key(k) && !spec_hint_in(
                        old(self)@.index(k).hint,
                        hints.deep_view(),
                    ),
                |k: (Seq<char>, Seq<char>)| old(self)@.index(k),
            ));
        }
    }
}

impl Clone for AttributeSet {
    fn clone(&self) -> (r: Self)
        ensures
            r.entries@.len() == self.entries@.len(),
            forall|j: int| 0 <= j < self.entries@.len() ==> (#[trigger] r.entries@[j])@
                == self.entries@[j]@,
            self.wf() ==> r.wf() && r@ == self@,
    {
        let mut entries: Vec<Attribute> = Vec::new();
        let n = self.entries.len();
        let mut i: usize = 0;
        while i < n
            invariant
                n == self.entries@.len(),
                i <= n,
                entries@.len() == i,
                forall|j: int| 0 <= j < i ==> (#[trigger] entries@[j])@ == self.entries@[j]@,
            decreases n - i,
        {
            entries.push(self.entries[i].clone());
            i += 1;
        }
        let r = AttributeSet { entries };
        proof {
            if self.wf() {
                assert forall|i2: int, j2: int|
                    0 <= i2 < j2 < r.entries@.len() implies key_of(
                (#[trigger] r.entries@[i2])@) != key_of((#[trigger] r.entries@[j2])@) by {
                    assert(key_of(self.entries@[i2]@) != key_of(self.entries@[j2]@));
                }
                assert(r.wf());
                assert forall|k2: (Seq<char>, Seq<char>)| #[trigger]
                    r@.contains_key(k2) == self@.contains_key(k2) && (r@.contains_key(k2)
                    ==> r@[k2] == self@[k2]) by {
                    if self.spec_contains(k2) {
                        let j = self.index_of(k2);
                        assert(key_of(r.entries@[j]@) == k2);
                        assert(r.spec_contains(k2));
                        r.lemma_index_unique(j, r.index_of(k2));
                    }
                    if r.spec_contains(k2) {
                        let j = r.index_of(k2);
                        assert(key_of(self.entries@[j]@) == k2);
                        assert(self.spec_contains(k2));
                    }
                }
                assert(r@ =~= self@);
            }
        }
        r
    }
}

impl View for AttributeSet {
    type V = Map<(Seq<char>, Seq<char>), AttributeView>;

    open spec fn view(&self) -> Map<(Seq<char>, Seq<char>), AttributeView> {
        Map::new(
            |k: (Seq<char>, Seq<char>)| self.spec_contains(k),
            |k: (Seq<char>, Seq<char>)| self.entries@[self.index_of(k)]@,
        )
    }
}

} // verus!
