use vstd::prelude::*;

use crate::errors::UdfError;
use crate::object::{ObjectView, VideoObject};
use crate::strutil::str_eq;

verus! {

/// What a registered user function does.
#[derive(Clone, Copy, Debug, PartialEq, Eq, Structural)]
pub enum UserFunctionType {
    ObjectPredicate,
    ObjectInplaceModifier,
    ObjectMapModifier,
}

/// The user functions this build carries. Dynamic loading of shared
/// objects is outside the verified core; a symbol resolves to one of
/// these exemplars instead.
#[derive(Clone, Copy, Debug, PartialEq, Eq, Structural)]
pub enum BuiltinFunction {
    UnaryOpEven,
    BinaryOpParent,
    InplaceModifier,
    MapModifier,
}

pub open spec fn builtin_kind(f: BuiltinFunction) -> UserFunctionType {
    match f {
        BuiltinFunction::UnaryOpEven => UserFunctionType::ObjectPredicate,
        BuiltinFunction::BinaryOpParent => UserFunctionType::ObjectPredicate,
        BuiltinFunction::InplaceModifier => UserFunctionType::ObjectInplaceModifier,
        BuiltinFunction::MapModifier => UserFunctionType::ObjectMapModifier,
    }
}

pub open spec fn spec_resolve_symbol(s: Seq<char>) -> Option<BuiltinFunction> {
    if s == "unary_op_even"@ {
        Some(BuiltinFunction::UnaryOpEven)
    } else if s == "binary_op_parent"@ {
        Some(BuiltinFunction::BinaryOpParent)
    } else if s == "inplace_modifier"@ {
        Some(BuiltinFunction::InplaceModifier)
    } else if s == "map_modifier"@ {
        Some(BuiltinFunction::MapModifier)
    } else {
        None
    }
}

fn resolve_symbol(symbol: &str) -> (r: Option<BuiltinFunction>)
    ensures
        r == spec_resolve_symbol(symbol@),
{
    if str_eq(symbol, "unary_op_even") {
        Some(BuiltinFunction::UnaryOpEven)
    } else if str_eq(symbol, "binary_op_parent") {
        Some(BuiltinFunction::BinaryOpParent)
    } else if str_eq(symbol, "inplace_modifier") {
        Some(BuiltinFunction::InplaceModifier)
    } else if str_eq(symbol, "map_modifier") {
        Some(BuiltinFunction::MapModifier)
    } else {
        None
    }
}

/// A label after the in-place and map modifiers have touched it.
pub open spec fn spec_modified_label(l: Seq<char>) -> Seq<char> {
    "modified_"@ + l
}

/// True of one object with an even id.
///
/// The exemplar object predicate: a single object matches when its id
/// is even.
pub fn unary_op_even(objs: &Vec<VideoObject>) -> (r: Result<bool, UdfError>)
    ensures
        match r {
            Ok(b) => objs@.len() == 1 && b == (objs@[0].id % 2 == 0),
            Err(e) => objs@.len() != 1 && e == UdfError::KindMismatch,
        },
{
    if objs.len() != 1 {
        return Err(UdfError::KindMismatch);
    }
    Ok(objs[0].id % 2 == 0)
}

/// True of a pair when the first object is a child of the second.
///
/// The exemplar binary predicate: distinct objects, and the first one's
/// parent id names the second.
pub fn binary_op_parent(objs: &Vec<VideoObject>) -> (r: Result<bool, UdfError>)
    ensures
        match r {
            Ok(b) => objs@.len() == 2 && b == (objs@[0].id != objs@[1].id && objs@[0].parent_id
                == Some(objs@[1].id)),
            Err(e) => objs@.len() != 2 && e == UdfError::KindMismatch,
        },
{
    if objs.len() != 2 {
        return Err(UdfError::KindMismatch);
    }
    let same = objs[0].id == objs[1].id;
    if same {
        return Ok(false);
    }
    let r = match objs[0].parent_id {
        Some(p) => p == objs[1].id,
        None => false,
    };
    Ok(r)
}

/// Prefixes the label of every given object.
///
/// The exemplar in-place modifier.
pub fn inplace_modifier(objs: &mut Vec<VideoObject>) -> (r: Result<(), UdfError>)
    ensures
        r is Ok,
        final(objs)@.len() == old(objs)@.len(),
        forall|j: int|
            0 <= j < old(objs)@.len() ==> #[trigger] final(objs)@[j]@ == (ObjectView {
                label: spec_modified_label(old(objs)@[j]@.label),
                ..old(objs)@[j]@
            }),
{
    let n = objs.len();
    let mut i: usize = 0;
    while i < n
        invariant
            n == objs@.len(),
            i <= n,
            forall|j: int| i <= j < n ==> #[trigger] objs@[j] == old(objs)@[j],
            forall|j: int|
                0 <= j < i ==> #[trigger] objs@[j]@ == (ObjectView {
                    label: spec_modified_label(old(objs)@[j]@.label),
                    ..old(objs)@[j]@
                }),
        decreases n - i,
    {
        let prefix: String = <String as vstd::string::StringExecFns>::from_str("modified_");
        let o = vstd::std_specs::vec::vec_index_mut(objs, i);
        let new_label = vstd::string::StringExecFns::concat(prefix, o.label.as_str());
        o.label = new_label;
        i += 1;
    }
    Ok(())
}

/// A standalone copy of the object, its label prefixed, its parent link
/// cleared.
///
/// The exemplar map modifier.
pub fn map_modifier(obj: &VideoObject) -> (r: Result<VideoObject, UdfError>)
    requires
        obj.wf(),
    ensures
        match r {
            Ok(o) => o.wf() && o@ == (ObjectView {
                label: spec_modified_label(obj@.label),
                parent_id: None,
                ..obj@
            }),
            Err(_) => false,
        },
{
    let mut o = obj.detached_copy();
    let prefix: String = <String as vstd::string::StringExecFns>::from_str("modified_");
    let new_label = vstd::string::StringExecFns::concat(prefix, o.label.as_str());
    o.set_label(new_label);
    Ok(o)
}

/// The registry of user functions, keyed by canonical name.
#[derive(Debug)]
pub struct UdfRegistry {
    pub entries: Vec<(String, UserFunctionType, BuiltinFunction)>,
}

impl UdfRegistry {
    /// Names are unique and every entry's declared kind is its
    /// function's kind.
    pub open spec fn wf(&self) -> bool {
        &&& forall|i: int, j: int|
            0 <= i < j < self.entries@.len() ==> (#[trigger] self.entries@[i]).0@ != (
            #[trigger] self.entries@[j]).0@
        &&& forall|i: int|
            0 <= i < self.entries@.len() ==> (#[trigger] self.entries@[i]).1 == builtin_kind(
                self.entries@[i].2,
            )
    }

    pub open spec fn spec_contains(&self, n: Seq<char>) -> bool {
        exists|i: int| 0 <= i < self.entries@.len() && (#[trigger] self.entries@[i]).0@ == n
    }

    pub open spec fn index_of(&self, n: Seq<char>) -> int {
        choose|i: int| 0 <= i < self.entries@.len() && (#[trigger] self.entries@[i]).0@ == n
    }

    pub proof fn lemma_index_unique(&self, i: int, j: int)
        requires
            self.wf(),
            0 <= i < self.entries@.len(),
            0 <= j < self.entries@.len(),
            self.entries@[i].0@ == self.entries@[j].0@,
        ensures
            i == j,
    {
    }

    pub fn new() -> (r: UdfRegistry)
        ensures
            r.wf(),
            r@ =~= Map::<Seq<char>, (UserFunctionType, BuiltinFunction)>::empty(),
    {
        UdfRegistry { entries: Vec::new() }
    }

    fn find(&self, name: &str) -> (r: Option<usize>)
        requires
            self.wf(),
        ensures
            match r {
                Some(i) => i < self.entries@.len() && self.entries@[i as int].0@ == name@
                    && self@.contains_key(name@),
                None => !self@.contains_key(name@),
            },
    {
        let n = self.entries.len();
        let mut i: usize = 0;
        while i < n
            invariant
                n == self.entries@.len(),
                i <= n,
                forall|j: int| 0 <= j < i ==> (#[trigger] self.entries@[j]).0@ != name@,
            decreases n - i,
        {
            if str_eq(self.entries[i].0.as_str(), name) {
                proof {
                    assert(self.spec_contains(name@));
                }
                return Some(i);
            }
            i += 1;
        }
        None
    }

    /// What is registered under `name`.
    pub fn lookup(&self, name: &str) -> (r: Option<(UserFunctionType, BuiltinFunction)>)
        requires
            self.wf(),
        ensures
            match r {
                Some(p) => self@.contains_key(name@) && p == self@.index(name@),
                None => !self@.contains_key(name@),
            },
    {
        match self.find(name) {
            Some(i) => {
                proof {
                    self.lemma_index_unique(i as int, self.index_of(name@));
                }
                Some((self.entries[i].1, self.entries[i].2))
            },
            None => None,
        }
    }
}

impl View for UdfRegistry {
    type V = Map<Seq<char>, (UserFunctionType, BuiltinFunction)>;

    open spec fn view(&self) -> Map<Seq<char>, (UserFunctionType, BuiltinFunction)> {
        Map::new(
            |n: Seq<char>| self.spec_contains(n),
            |n: Seq<char>|
                (self.entries@[self.index_of(n)].1, self.entries@[self.index_of(n)].2),
        )
    }
}

/// Whether a function is registered under `name`.
pub fn is_plugin_function_registered(registry: &UdfRegistry, name: &str) -> (r: bool)
    requires
        registry.wf(),
    ensures
        r == registry@.contains_key(name@),
{
    match registry.lookup(name) {
        Some(_) => true,
        None => false,
    }
}

/// Binds `name` to the function behind `symbol`, declared as `kind`.
/// Registration is idempotent: a name already bound is left as it is.
/// The plugin path is kept for compatibility with loaders of shared
/// objects; here every symbol resolves among the built-in exemplars.
pub fn register_plugin_function(
    registry: &mut UdfRegistry,
    plugin_path: &str,
    symbol: &str,
    kind: UserFunctionType,
    name: &str,
) -> (r: Result<(), UdfError>)
    requires
        old(registry).wf(),
    ensures
        final(registry).wf(),
        match r {
            Ok(_) => {
                &&& (old(registry)@.contains_key(name@) ==> *final(registry) == *old(registry))
                &&& (!old(registry)@.contains_key(name@) ==> {
                    &&& spec_resolve_symbol(symbol@) is Some
                    &&& builtin_kind(spec_resolve_symbol(symbol@)->0) == kind
                    &&& final(registry)@ =~= old(registry)@.insert(
                        name@,
                        (kind, spec_resolve_symbol(symbol@)->0),
                    )
                })
            },
            Err(e) => {
                &&& *final(registry) == *old(registry)
                &&& !old(registry)@.contains_key(name@)
                &&& (e == UdfError::UnknownSymbol <==> spec_resolve_symbol(symbol@) is None)
                &&& (e == UdfError::KindMismatch <==> spec_resolve_symbol(symbol@) is Some
                    && builtin_kind(spec_resolve_symbol(symbol@)->0) != kind)
            },
        },
{
    if is_plugin_function_registered(registry, name) {
        return Ok(());
    }
    let f = match resolve_symbol(symbol) {
        Some(f) => f,
        None => {
            return Err(UdfError::UnknownSymbol);
        },
    };
    let kind_ok = match (f, kind) {
        (BuiltinFunction::UnaryOpEven, UserFunctionType::ObjectPredicate) => true,
        (BuiltinFunction::BinaryOpParent, UserFunctionType::ObjectPredicate) => true,
        (BuiltinFunction::InplaceModifier, UserFunctionType::ObjectInplaceModifier) => true,
        (BuiltinFunction::MapModifier, UserFunctionType::ObjectMapModifier) => true,
        _ => false,
    };
    if !kind_ok {
        return Err(UdfError::KindMismatch);
    }
    let ghost pre = *registry;
    registry.entries.push((name.to_owned(), kind, f));
    proof {
        let fin = *final(registry);
        let n = pre.entries@.len();
        assert forall|a: int, b: int|
            0 <= a < b < fin.entries@.len() implies (#[trigger] fin.entries@[a]).0@ != (
        #[trigger] fin.entries@[b]).0@ by {
            if b < n {
                assert(pre.entries@[a].0@ != pre.entries@[b].0@);
            } else {
                assert(fin.entries@[b].0@ == name@);
                assert(fin.entries@[a] == pre.entries@[a]);
                assert(pre.spec_contains(fin.entries@[a].0@));
            }
        }
        assert forall|n2: Seq<char>| #[trigger]
            fin@.contains_key(n2) == pre@.insert(name@, (kind, f)).contains_key(n2) && (
        fin@.contains_key(n2) ==> fin@[n2] == pre@.insert(name@, (kind, f))[n2]) by {
            if n2 == name@ {
                assert(fin.entries@[n as int].0@ == name@);
                assert(fin.spec_contains(n2));
                fin.lemma_index_unique(n as int, fin.index_of(n2));
            } else {
                if pre.spec_contains(n2) {
                    let j = pre.index_of(n2);
                    assert(fin.entries@[j].0@ == n2);
                    assert(fin.spec_contains(n2));
                    fin.lemma_index_unique(j, fin.index_of(n2));
                    pre.lemma_index_unique(j, pre.index_of(n2));
                }
                if fin.spec_contains(n2) {
                    let j = fin.index_of(n2);
                    assert(j < n);
                    assert(pre.entries@[j].0@ == n2);
                    assert(pre.spec_contains(n2));
                }
            }
        }
        assert(fin@ =~= pre@.insert(name@, (kind, f)));
    }
    Ok(())
}

/// Calls the object predicate registered under `name` on the given
/// objects.
pub fn call_object_predicate(registry: &UdfRegistry, name: &str, objs: &Vec<VideoObject>) -> (r:
    Result<bool, UdfError>)
    requires
        registry.wf(),
    ensures
        (registry@.contains_key(name@) && registry@.index(name@).0
            == UserFunctionType::ObjectPredicate && ((registry@.index(name@).1
            == BuiltinFunction::UnaryOpEven && objs@.len() == 1) || (registry@.index(name@).1
            == BuiltinFunction::BinaryOpParent && objs@.len() == 2))) ==> r is Ok,
        match r {
            Ok(b) => {
                &&& registry@.contains_key(name@)
                &&& registry@.index(name@).0 == UserFunctionType::ObjectPredicate
                &&& match registry@.index(name@).1 {
                    BuiltinFunction::UnaryOpEven => objs@.len() == 1 && b == (objs@[0].id % 2
                        == 0),
                    BuiltinFunction::BinaryOpParent => objs@.len() == 2 && b == (objs@[0].id
                        != objs@[1].id && objs@[0].parent_id == Some(objs@[1].id)),
                    _ => false,
                }
            },
            Err(e) => {
                &&& (e == UdfError::NotRegistered <==> !registry@.contains_key(name@))
                &&& (registry@.contains_key(name@) && registry@.index(name@).0
                    != UserFunctionType::ObjectPredicate ==> e == UdfError::KindMismatch)
            },
        },
{
    match registry.lookup(name) {
        None => Err(UdfError::NotRegistered),
        Some((kind, f)) => match kind {
            UserFunctionType::ObjectPredicate => match f {
                BuiltinFunction::UnaryOpEven => unary_op_even(objs),
                BuiltinFunction::BinaryOpParent => binary_op_parent(objs),
                _ => {
                    proof {
                        assert(false);
                    }
                    Err(UdfError::KindMismatch)
                },
            },
            _ => Err(UdfError::KindMismatch),
        },
    }
}

/// Calls the map modifier registered under `name` on one object.
pub fn call_object_map_modifier(registry: &UdfRegistry, name: &str, obj: &VideoObject) -> (r:
    Result<VideoObject, UdfError>)
    requires
        registry.wf(),
        obj.wf(),
    ensures
        (registry@.contains_key(name@) && registry@.index(name@).0
            == UserFunctionType::ObjectMapModifier) ==> r is Ok,
        match r {
            Ok(o) => {
                &&& registry@.contains_key(name@)
                &&& registry@.index(name@).0 == UserFunctionType::ObjectMapModifier
                &&& o.wf()
                &&& o@ == (ObjectView {
                    label: spec_modified_label(obj@.label),
                    parent_id: None,
                    ..obj@
                })
            },
            Err(e) => {
                &&& (e == UdfError::NotRegistered <==> !registry@.contains_key(name@))
                &&& (registry@.contains_key(name@) && registry@.index(name@).0
                    != UserFunctionType::ObjectMapModifier ==> e == UdfError::KindMismatch)
            },
        },
{
    match registry.lookup(name) {
        None => Err(UdfError::NotRegistered),
        Some((kind, f)) => match kind {
            UserFunctionType::ObjectMapModifier => match f {
                BuiltinFunction::MapModifier => map_modifier(obj),
                _ => {
                    proof {
                        assert(false);
                    }
                    Err(UdfError::KindMismatch)
                },
            },
            _ => Err(UdfError::KindMismatch),
        },
    }
}

/// Calls the in-place modifier registered under `name` on the given
/// objects, changing them where they stand.
pub fn call_object_inplace_modifier(
    registry: &UdfRegistry,
    name: &str,
    objs: &mut Vec<VideoObject>,
) -> (r: Result<(), UdfError>)
    requires
        registry.wf(),
    ensures
        (registry@.contains_key(name@) && registry@.index(name@).0
            == UserFunctionType::ObjectInplaceModifier) ==> r is Ok,
        match r {
            Ok(_) => {
                &&& registry@.contains_key(name@)
                &&& registry@.index(name@).0 == UserFunctionType::ObjectInplaceModifier
                &&& final(objs)@.len() == old(objs)@.len()
                &&& forall|j: int|
                    0 <= j < old(objs)@.len() ==> #[trigger] final(objs)@[j]@ == (ObjectView {
                        label: spec_modified_label(old(objs)@[j]@.label),
                        ..old(objs)@[j]@
                    })
            },
            Err(e) => {
                &&& *final(objs) == *old(objs)
                &&& (e == UdfError::NotRegistered <==> !registry@.contains_key(name@))
                &&& (registry@.contains_key(name@) && registry@.index(name@).0
                    != UserFunctionType::ObjectInplaceModifier ==> e == UdfError::KindMismatch)
            },
        },
{
    match registry.lookup(name) {
        None => Err(UdfError::NotRegistered),
        Some((kind, f)) => match kind {
            UserFunctionType::ObjectInplaceModifier => match f {
                BuiltinFunction::InplaceModifier => inplace_modifier(objs),
                _ => {
                    proof {
                        assert(false);
                    }
                    Err(UdfError::KindMismatch)
                },
            },
            _ => Err(UdfError::KindMismatch),
        },
    }
}

} // verus!
