//! Insertion-ordered maps from names to values, kept in `indexmap::IndexMap`.
//! What such a map holds is named as a sequence of pairs; the functions here
//! say what each operation of the map does to that sequence.

use vstd::prelude::*;
use indexmap::IndexMap;
use crate::file_order::{name_le, name_order, texts};

verus! {

/// `indexmap::IndexMap`, carried as a value that only the functions below
/// look into.
#[verifier::external_type_specification]
#[verifier::external_body]
#[verifier::reject_recursive_types(K)]
#[verifier::reject_recursive_types(V)]
#[verifier::reject_recursive_types(S)]
pub struct ExIndexMap<K, V, S>(IndexMap<K, V, S>);

/// The pairs of a map from names to flags, in the map's order.
pub uninterp spec fn file_entries(m: IndexMap<String, bool>) -> Seq<(Seq<char>, bool)>;

/// The pairs of a map from names to frame sizes, in the map's order.
pub uninterp spec fn dim_entries(m: IndexMap<String, (i32, i32)>) -> Seq<(Seq<char>, (i32, i32))>;

/// The first place of `key` among the pairs.
pub open spec fn key_index<V>(s: Seq<(Seq<char>, V)>, key: Seq<char>) -> Option<int>
    decreases s.len(),
{
    if s.len() == 0 {
        None
    } else {
        match key_index(s.drop_last(), key) {
            Some(i) => Some(i),
            None => if s.last().0 == key {
                Some(s.len() - 1)
            } else {
                None
            },
        }
    }
}

/// The pairs after `key` was given `value`: a key that is there keeps its
/// place, a new one goes to the end.
pub open spec fn upserted<V>(s: Seq<(Seq<char>, V)>, key: Seq<char>, value: V) -> Seq<
    (Seq<char>, V),
> {
    match key_index(s, key) {
        Some(i) => s.update(i, (key, value)),
        None => s.push((key, value)),
    }
}

/// No name occurs twice among the pairs.
pub open spec fn distinct_keys<V>(s: Seq<(Seq<char>, V)>) -> bool {
    forall|i: int, j: int| 0 <= i < j < s.len() ==> s[i].0 != s[j].0
}

/// The names of the pairs are in the order of names.
pub open spec fn sorted_names<V>(order: Seq<Seq<char>>, s: Seq<(Seq<char>, V)>) -> bool {
    forall|i: int, j: int| 0 <= i < j < s.len() ==> name_le(order, s[i].0, s[j].0)
}

/// Where `key_index` finds a key, that place holds it and no earlier one
/// does; where it finds none, no place holds it.
pub proof fn lemma_key_index<V>(s: Seq<(Seq<char>, V)>, key: Seq<char>)
    ensures
        key_index(s, key) matches Some(i) ==> 0 <= i < s.len() && s[i].0 == key && forall|j: int|
            0 <= j < i ==> s[j].0 != key,
        key_index(s, key) is None ==> forall|j: int| 0 <= j < s.len() ==> s[j].0 != key,
    decreases s.len(),
{
    if s.len() > 0 {
        lemma_key_index(s.drop_last(), key);
        assert forall|j: int| 0 <= j < s.len() - 1 implies s.drop_last()[j] == s[j] by {}
        match key_index(s.drop_last(), key) {
            Some(i) => {
                assert(s.drop_last()[i] == s[i]);
                assert forall|j: int| 0 <= j < i implies s[j].0 != key by {
                    assert(s.drop_last()[j] == s[j]);
                }
            },
            None => {
                assert forall|j: int| 0 <= j < s.len() - 1 implies s[j].0 != key by {
                    assert(s.drop_last()[j] == s[j]);
                }
            },
        }
    }
}

/// `IndexMap::new`: a map without pairs.
#[verifier::external_body]
pub(crate) fn dims_new() -> (m: IndexMap<String, (i32, i32)>)
    ensures
        dim_entries(m) == Seq::<(Seq<char>, (i32, i32))>::empty(),
{
    IndexMap::new()
}

/// `IndexMap::insert`: a key that the map holds keeps its place and gets the
/// new value; a new key is added behind all others.
#[verifier::external_body]
pub(crate) fn dims_insert(m: &mut IndexMap<String, (i32, i32)>, key: String, value: (i32, i32))
    ensures
        dim_entries(*final(m)) == upserted(dim_entries(*old(m)), key@, value),
{
    m.insert(key, value);
}

/// `IndexMap::len`: the number of pairs.
#[verifier::external_body]
pub(crate) fn dims_len(m: &IndexMap<String, (i32, i32)>) -> (n: usize)
    ensures
        n == dim_entries(*m).len(),
{
    m.len()
}

/// `IndexMap::get_index`: the pair at a place of the map's order.
#[verifier::external_body]
pub(crate) fn dims_get_index(m: &IndexMap<String, (i32, i32)>, i: usize) -> (r: (String, (i32, i32)))
    requires
        i < dim_entries(*m).len(),
    ensures
        r.0@ == dim_entries(*m)[i as int].0,
        r.1 == dim_entries(*m)[i as int].1,
{
    let (k, v) = m.get_index(i).unwrap();
    (k.clone(), *v)
}

/// `IndexMap::new`: a map without pairs.
#[verifier::external_body]
pub(crate) fn files_new() -> (m: IndexMap<String, bool>)
    ensures
        file_entries(m) == Seq::<(Seq<char>, bool)>::empty(),
{
    IndexMap::new()
}

/// `IndexMap::len`: the number of pairs.
#[verifier::external_body]
pub(crate) fn files_len(m: &IndexMap<String, bool>) -> (n: usize)
    ensures
        n == file_entries(*m).len(),
{
    m.len()
}

/// `IndexMap::get_index`: the pair at a place of the map's order. A map
/// holds each key once, so the key is at no other place.
#[verifier::external_body]
pub(crate) fn files_get_index(m: &IndexMap<String, bool>, i: usize) -> (r: (String, bool))
    requires
        i < file_entries(*m).len(),
    ensures
        r.0@ == file_entries(*m)[i as int].0,
        r.1 == file_entries(*m)[i as int].1,
        forall|j: int| 0 <= j < file_entries(*m).len() && j != i ==> file_entries(*m)[j].0 != r.0@,
{
    let (k, v) = m.get_index(i).unwrap();
    (k.clone(), *v)
}

/// `IndexMap::get`: the value of a key, if the map holds the key.
#[verifier::external_body]
pub(crate) fn files_get(m: &IndexMap<String, bool>, key: &str) -> (r: Option<bool>)
    ensures
        match r {
            Some(v) => key_index(file_entries(*m), key@) matches Some(i) && file_entries(*m)[i].1
                == v,
            None => key_index(file_entries(*m), key@) is None,
        },
{
    m.get(key).copied()
}

/// `IndexMap::sort_by` with the order of names as comparison: the same pairs,
/// with the names in that order. The order of names is a total order, so the
/// sort is well defined.
#[verifier::external_body]
pub(crate) fn files_sort(m: &mut IndexMap<String, bool>, order: &Vec<String>)
    ensures
        file_entries(*final(m)).to_multiset() == file_entries(*old(m)).to_multiset(),
        sorted_names(texts(order@), file_entries(*final(m))),
{
    m.sort_by(|k1, _, k2, _| name_order(order, k1, k2));
}

/// `IndexMap::eq`: two maps are equal where they hold the same pairs, in
/// whatever order.
#[verifier::external_body]
pub(crate) fn files_same(a: &IndexMap<String, bool>, b: &IndexMap<String, bool>) -> (r: bool)
    ensures
        r == (file_entries(*a).to_set() == file_entries(*b).to_set()),
{
    a == b
}

} // verus!
