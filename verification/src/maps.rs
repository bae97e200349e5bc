//! The ordered maps of the type checker: declarations to their type slots, and
//! functions to their typed forms.
use vstd::prelude::*;
use crate::ids::{FunctionId, TypeId};
use crate::typed::Function;
use crate::types::TypeVariable;

verus! {

/// A key of the checker's map from declarations to their types.
#[derive(Debug, Clone, Copy, PartialEq, Eq, Structural)]
pub enum TypeOrFunctionId {
    TypeId(TypeId),
    FunctionId(FunctionId),
}

/// The order of keys: all types before all functions, each by number.
#[verifier::opaque]
pub open spec fn key_rank(k: TypeOrFunctionId) -> int {
    match k {
        TypeOrFunctionId::TypeId(t) => t.0 as int,
        TypeOrFunctionId::FunctionId(f) => usize::MAX + 1 + f.0,
    }
}

/// Whether key `a` comes before key `b`.
pub fn key_below(a: TypeOrFunctionId, b: TypeOrFunctionId) -> (r: bool)
    ensures
        r == (key_rank(a) < key_rank(b)),
{
    proof {
        reveal(key_rank);
    }
    match (a, b) {
        (TypeOrFunctionId::TypeId(x), TypeOrFunctionId::TypeId(y)) => x.0 < y.0,
        (TypeOrFunctionId::TypeId(_), TypeOrFunctionId::FunctionId(_)) => true,
        (TypeOrFunctionId::FunctionId(_), TypeOrFunctionId::TypeId(_)) => false,
        (TypeOrFunctionId::FunctionId(x), TypeOrFunctionId::FunctionId(y)) => x.0 < y.0,
    }
}

pub proof fn lemma_key_rank_injective(a: TypeOrFunctionId, b: TypeOrFunctionId)
    ensures
        key_rank(a) == key_rank(b) ==> a == b,
{
    reveal(key_rank);
}

/// A type's key ranks by its number, a function's key after every type's.
pub proof fn lemma_key_rank_values(k: TypeOrFunctionId)
    ensures
        k matches TypeOrFunctionId::TypeId(t) ==> key_rank(k) == t.0,
        k matches TypeOrFunctionId::FunctionId(f) ==> key_rank(k) == usize::MAX + 1 + f.0,
        key_rank(k) >= 0,
{
    reveal(key_rank);
}

/// The keys of a map are in strictly increasing order.
pub open spec fn keys_sorted(v: Seq<(TypeOrFunctionId, TypeVariable)>) -> bool {
    forall|i: int, j: int| 0 <= i < j < v.len() ==> key_rank(#[trigger] v[i].0) < key_rank(#[trigger] v[j].0)
}

/// Putting `key` at position `p` of `before` keeps the keys in order when everything
/// before `p` ranks below it and everything from `p` on ranks above it.
proof fn lemma_sorted_insert(before: Seq<(TypeOrFunctionId, TypeVariable)>, p: int, key: TypeOrFunctionId, val: TypeVariable)
    requires
        keys_sorted(before),
        0 <= p <= before.len(),
        forall|j: int| 0 <= j < p ==> key_rank(#[trigger] before[j].0) < key_rank(key),
        forall|j: int| p <= j < before.len() ==> key_rank(#[trigger] before[j].0) > key_rank(key),
    ensures
        keys_sorted(before.insert(p, (key, val))),
{
    let after = before.insert(p, (key, val));
    assert forall|a: int, b: int| 0 <= a < b < after.len() implies key_rank(#[trigger] after[a].0) < key_rank(
        #[trigger] after[b].0,
    ) by {
        if b < p {
            assert(after[a] == before[a] && after[b] == before[b]);
        } else if b == p {
            assert(after[a] == before[a]);
        } else if a < p {
            assert(after[a] == before[a] && after[b] == before[b - 1]);
        } else if a == p {
            assert(after[b] == before[b - 1]);
        } else {
            assert(after[a] == before[a - 1] && after[b] == before[b - 1]);
        }
    }
}

proof fn lemma_sorted_update(before: Seq<(TypeOrFunctionId, TypeVariable)>, p: int, key: TypeOrFunctionId, val: TypeVariable)
    requires
        keys_sorted(before),
        0 <= p < before.len(),
        before[p].0 == key,
    ensures
        keys_sorted(before.update(p, (key, val))),
{
    let after = before.update(p, (key, val));
    assert forall|a: int, b: int| 0 <= a < b < after.len() implies key_rank(#[trigger] after[a].0) < key_rank(
        #[trigger] after[b].0,
    ) by {
        assert(after[a].0 == before[a].0 && after[b].0 == before[b].0);
    }
}

/// Puts `key` with `val` into an ordered map, replacing the value it had, and returns
/// the position it went to: in place of the entry with that key, or, where there was
/// none, between the keys below it and those above it.
pub fn map_insert(map: &mut Vec<(TypeOrFunctionId, TypeVariable)>, key: TypeOrFunctionId, val: TypeVariable) -> (p:
    usize)
    requires
        keys_sorted(old(map)@),
    ensures
        keys_sorted(final(map)@),
        p <= old(map)@.len(),
        forall|j: int| 0 <= j < p ==> key_rank(#[trigger] old(map)@[j].0) < key_rank(key),
        forall|j: int| p < j < old(map)@.len() ==> key_rank(#[trigger] old(map)@[j].0) > key_rank(key),
        p < old(map)@.len() && old(map)@[p as int].0 == key ==> final(map)@ == old(map)@.update(
            p as int,
            (key, val),
        ),
        !(p < old(map)@.len() && old(map)@[p as int].0 == key) ==> {
            &&& final(map)@ == old(map)@.insert(p as int, (key, val))
            &&& p < old(map)@.len() ==> key_rank(old(map)@[p as int].0) > key_rank(key)
        },
{
    let mut i: usize = 0;
    while i < map.len() && key_below(map[i].0, key)
        invariant
            i <= map@.len(),
            *map == *old(map),
            forall|j: int| 0 <= j < i ==> key_rank(#[trigger] map@[j].0) < key_rank(key),
        decreases map@.len() - i,
    {
        i += 1;
    }
    let ghost before = map@;
    proof {
        assert forall|j: int| i < j < before.len() implies key_rank(#[trigger] before[j].0) > key_rank(key) by {
            assert(key_rank(before[i as int].0) < key_rank(before[j].0));
        }
    }
    if i < map.len() && map[i].0 == key {
        map.set(i, (key, val));
        proof {
            lemma_sorted_update(before, i as int, key, val);
        }
    } else {
        map.insert(i, (key, val));
        proof {
            if i < before.len() {
                lemma_key_rank_injective(before[i as int].0, key);
            }
            assert forall|j: int| i <= j < before.len() implies key_rank(#[trigger] before[j].0) > key_rank(key) by {
                if j > i {
                    assert(key_rank(before[i as int].0) < key_rank(before[j].0));
                }
            }
            lemma_sorted_insert(before, i as int, key, val);
        }
    }
    i
}

/// The value of `key` in an ordered map.
pub fn map_get(map: &Vec<(TypeOrFunctionId, TypeVariable)>, key: TypeOrFunctionId) -> (r: Option<TypeVariable>)
    ensures
        r is Some ==> exists|j: int| 0 <= j < map@.len() && map@[j] == (key, r->Some_0),
        r is None ==> forall|j: int| 0 <= j < map@.len() ==> (#[trigger] map@[j]).0 != key,
{
    let mut i: usize = 0;
    while i < map.len()
        invariant
            i <= map@.len(),
            forall|j: int| 0 <= j < i ==> (#[trigger] map@[j]).0 != key,
        decreases map@.len() - i,
    {
        if map[i].0 == key {
            return Some(map[i].1);
        }
        i += 1;
    }
    None
}

/// The position of `id` among the typed functions.
pub fn function_index(fns: &Vec<(FunctionId, Function)>, id: FunctionId) -> (r: Option<usize>)
    ensures
        r is Some ==> r->Some_0 < fns@.len() && fns@[r->Some_0 as int].0 == id,
        r is None ==> forall|j: int| 0 <= j < fns@.len() ==> (#[trigger] fns@[j]).0 != id,
{
    let mut i: usize = 0;
    while i < fns.len()
        invariant
            i <= fns@.len(),
            forall|j: int| 0 <= j < i ==> (#[trigger] fns@[j]).0 != id,
        decreases fns@.len() - i,
    {
        if fns[i].0 == id {
            return Some(i);
        }
        i += 1;
    }
    None
}

/// The typed functions are ordered by id.
pub open spec fn functions_sorted(v: Seq<(FunctionId, Function)>) -> bool {
    forall|i: int, j: int| 0 <= i < j < v.len() ==> (#[trigger] v[i]).0.0 < (#[trigger] v[j]).0.0
}

/// Puts function `id` into the ordered list of typed functions, replacing the one it
/// had, and returns the position it went to.
pub fn functions_insert(fns: &mut Vec<(FunctionId, Function)>, id: FunctionId, f: Function) -> (p: usize)
    requires
        functions_sorted(old(fns)@),
    ensures
        functions_sorted(final(fns)@),
        p <= old(fns)@.len(),
        p < old(fns)@.len() && old(fns)@[p as int].0 == id ==> final(fns)@ == old(fns)@.update(p as int, (id, f)),
        !(p < old(fns)@.len() && old(fns)@[p as int].0 == id) ==> {
            &&& final(fns)@ == old(fns)@.insert(p as int, (id, f))
            &&& forall|j: int| 0 <= j < old(fns)@.len() ==> (#[trigger] old(fns)@[j]).0 != id
        },
{
    let mut i: usize = 0;
    while i < fns.len() && fns[i].0.0 < id.0
        invariant
            i <= fns@.len(),
            *fns == *old(fns),
            forall|j: int| 0 <= j < i ==> (#[trigger] fns@[j]).0.0 < id.0,
        decreases fns@.len() - i,
    {
        i += 1;
    }
    let ghost before = fns@;
    proof {
        assert forall|j: int| i < j < before.len() implies (#[trigger] before[j]).0.0 > id.0 by {
            assert(before[i as int].0.0 < before[j].0.0);
        }
    }
    if i < fns.len() && fns[i].0 == id {
        fns.set(i, (id, f));
        proof {
            let after = fns@;
            assert forall|a: int, b: int| 0 <= a < b < after.len() implies (#[trigger] after[a]).0.0 < (
            #[trigger] after[b]).0.0 by {
                assert(after[a].0 == before[a].0 && after[b].0 == before[b].0);
            }
        }
    } else {
        fns.insert(i, (id, f));
        proof {
            let after = fns@;
            assert forall|j: int| i <= j < before.len() implies (#[trigger] before[j]).0.0 > id.0 by {
                if j > i {
                    assert(before[i as int].0.0 < before[j].0.0);
                }
            }
            assert forall|a: int, b: int| 0 <= a < b < after.len() implies (#[trigger] after[a]).0.0 < (
            #[trigger] after[b]).0.0 by {
                if b < i {
                    assert(after[a] == before[a] && after[b] == before[b]);
                } else if b == i {
                    assert(after[a] == before[a]);
                } else if a < i {
                    assert(after[a] == before[a] && after[b] == before[b - 1]);
                } else if a == i {
                    assert(after[b] == before[b - 1]);
                } else {
                    assert(after[a] == before[a - 1] && after[b] == before[b - 1]);
                }
            }
            assert forall|j: int| 0 <= j < before.len() implies (#[trigger] before[j]).0 != id by {
                if j < i {
                    assert(before[j].0.0 < id.0);
                } else {
                    assert(before[j].0.0 > id.0);
                }
            }
        }
    }
    i
}

} // verus!
