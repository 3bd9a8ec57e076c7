//! Lists of named entries: the first entry of a name counts, a new name goes last.

use crate::text;
use vstd::prelude::*;

verus! {

/// The first position not before `i` at which `key` stands.
pub open spec fn first_from(keys: Seq<Seq<char>>, key: Seq<char>, i: int) -> Option<int>
    decreases keys.len() - i,
{
    if i < 0 || i >= keys.len() {
        None
    } else if keys[i] == key {
        Some(i)
    } else {
        first_from(keys, key, i + 1)
    }
}

/// The position of the first entry named `key`.
pub open spec fn index_of(keys: Seq<Seq<char>>, key: Seq<char>) -> Option<int> {
    first_from(keys, key, 0)
}

/// The names of the entries, in order.
pub open spec fn keys<V>(s: Seq<(Seq<char>, V)>) -> Seq<Seq<char>> {
    Seq::new(s.len(), |i: int| s[i].0)
}

/// The names of the entries of an executable list, in order.
pub open spec fn names<V>(s: Seq<(String, V)>) -> Seq<Seq<char>> {
    Seq::new(s.len(), |i: int| s[i].0@)
}

/// What stands under `key`.
pub open spec fn lookup<V>(s: Seq<(Seq<char>, V)>, key: Seq<char>) -> Option<V> {
    match index_of(keys(s), key) {
        Some(i) => Some(s[i].1),
        None => None,
    }
}

/// `s` with `value` under `key`: in place of the first entry of that name, or as a new last one.
pub open spec fn set<V>(s: Seq<(Seq<char>, V)>, key: Seq<char>, value: V) -> Seq<(Seq<char>, V)> {
    match index_of(keys(s), key) {
        Some(i) => s.update(i, (key, value)),
        None => s.push((key, value)),
    }
}

/// No name occurs twice.
pub open spec fn distinct(keys: Seq<Seq<char>>) -> bool {
    forall|i: int, j: int| 0 <= i < j < keys.len() ==> #[trigger] keys[i] != #[trigger] keys[j]
}

proof fn lemma_first_from(keys: Seq<Seq<char>>, key: Seq<char>, i: int)
    requires
        0 <= i,
    ensures
        match first_from(keys, key, i) {
            Some(k) => i <= k < keys.len() && keys[k] == key && forall|j: int|
                i <= j < k ==> #[trigger] keys[j] != key,
            None => forall|j: int| i <= j < keys.len() ==> #[trigger] keys[j] != key,
        },
    decreases keys.len() - i,
{
    if i < keys.len() && keys[i] != key {
        lemma_first_from(keys, key, i + 1);
    }
}

/// [`index_of`] gives the least position of `key`, where there is one.
pub proof fn lemma_index_of(keys: Seq<Seq<char>>, key: Seq<char>)
    ensures
        match index_of(keys, key) {
            Some(k) => 0 <= k < keys.len() && keys[k] == key && forall|j: int|
                0 <= j < k ==> #[trigger] keys[j] != key,
            None => forall|j: int| 0 <= j < keys.len() ==> #[trigger] keys[j] != key,
        },
{
    lemma_first_from(keys, key, 0);
}

/// A least position of `key` is what [`index_of`] gives.
pub proof fn lemma_index_is(keys: Seq<Seq<char>>, key: Seq<char>, k: int)
    requires
        0 <= k < keys.len(),
        keys[k] == key,
        forall|j: int| 0 <= j < k ==> #[trigger] keys[j] != key,
    ensures
        index_of(keys, key) == Some(k),
{
    lemma_index_of(keys, key);
}

/// After [`set`], the key stands for the value, every other key for what it stood for, and the
/// names stay distinct.
pub proof fn lemma_set<V>(s: Seq<(Seq<char>, V)>, key: Seq<char>, value: V)
    ensures
        lookup(set(s, key, value), key) == Some(value),
        forall|other: Seq<char>|
            other != key ==> #[trigger] lookup(set(s, key, value), other) == lookup(s, other),
        distinct(keys(s)) ==> distinct(keys(set(s, key, value))),
        set(s, key, value).len() <= s.len() + 1,
{
    let t = set(s, key, value);
    lemma_index_of(keys(s), key);
    match index_of(keys(s), key) {
        Some(i) => {
            assert(keys(t) =~= keys(s));
            assert forall|other: Seq<char>| other != key implies #[trigger] lookup(t, other)
                == lookup(s, other) by {
                lemma_index_of(keys(s), other);
            }
        },
        None => {
            assert(keys(t) =~= keys(s).push(key));
            lemma_index_is(keys(t), key, s.len() as int);
            assert forall|other: Seq<char>| other != key implies #[trigger] lookup(t, other)
                == lookup(s, other) by {
                lemma_index_of(keys(s), other);
                lemma_index_of(keys(t), other);
                match index_of(keys(s), other) {
                    Some(j) => {
                        lemma_index_is(keys(t), other, j);
                    },
                    None => {},
                }
            }
        },
    }
}

/// Looks a name up.
pub fn position<V>(v: &Vec<(String, V)>, key: &str) -> (r: Option<usize>)
    ensures
        match r {
            Some(i) => index_of(names(v@), key@) == Some(i as int) && i < v@.len(),
            None => index_of(names(v@), key@) is None,
        },
{
    let mut i: usize = 0;
    while i < v.len()
        invariant
            i <= v@.len(),
            index_of(names(v@), key@) == first_from(names(v@), key@, i as int),
        decreases v@.len() - i,
    {
        if text::same(v[i].0.as_str(), key) {
            return Some(i);
        }
        i += 1;
    }
    None
}

} // verus!
