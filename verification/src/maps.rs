//! Small tools for hash maps with integer keys.

use vstd::prelude::*;
use std::collections::HashMap;

verus! {

/// The keys of a map, each once, in no particular order.
pub fn keys_i64<V>(m: &HashMap<i64, V>) -> (v: Vec<i64>)
    ensures
        v@.no_duplicates(),
        v@.to_set() == m@.dom(),
{
    broadcast use vstd::std_specs::hash::group_hash_axioms;
    let mut v: Vec<i64> = Vec::new();
    for k in iter: m.keys()
        invariant
            v@.len() == iter.index(),
            forall|j: int| 0 <= j < v@.len() ==> v@[j] == *iter.seq()[j],
            iter.seq().unref().to_set() == m@.dom(),
            iter.seq().no_duplicates(),
            iter.index() == iter.seq().len() ==> v@ == iter.seq().unref(),
    {
        v.push(*k);
        assert(iter.index() + 1 == iter.seq().len() ==> v@ =~= iter.seq().unref());
    }
    v
}

/// The keys of a map, each once, in no particular order.
pub fn keys_i32<V>(m: &HashMap<i32, V>) -> (v: Vec<i32>)
    ensures
        v@.no_duplicates(),
        v@.to_set() == m@.dom(),
{
    broadcast use vstd::std_specs::hash::group_hash_axioms;
    let mut v: Vec<i32> = Vec::new();
    for k in iter: m.keys()
        invariant
            v@.len() == iter.index(),
            forall|j: int| 0 <= j < v@.len() ==> v@[j] == *iter.seq()[j],
            iter.seq().unref().to_set() == m@.dom(),
            iter.seq().no_duplicates(),
            iter.index() == iter.seq().len() ==> v@ == iter.seq().unref(),
    {
        v.push(*k);
        assert(iter.index() + 1 == iter.seq().len() ==> v@ =~= iter.seq().unref());
    }
    v
}

/// Every entry of `a` is an entry of `b`.
fn int_map_within(a: &HashMap<i64, i64>, b: &HashMap<i64, i64>) -> (r: bool)
    ensures
        r == (forall|k: i64| #[trigger] a@.contains_key(k) ==> b@.contains_key(k) && b@[k] == a@[k]),
{
    broadcast use vstd::std_specs::hash::group_hash_axioms;
    let keys = keys_i64(a);
    let mut i: usize = 0;
    while i < keys.len()
        invariant
            i <= keys.len(),
            keys@.to_set() == a@.dom(),
            forall|j: int|
                0 <= j < i ==> b@.contains_key(#[trigger] keys@[j]) && b@[keys@[j]] == a@[keys@[j]],
        decreases keys.len() - i,
    {
        let k = keys[i];
        assert(keys@.to_set().contains(k));
        let ok = match (a.get(&k), b.get(&k)) {
            (Some(x), Some(y)) => *x == *y,
            _ => false,
        };
        if !ok {
            assert(a@.contains_key(k));
            return false;
        }
        i += 1;
    }
    proof {
        assert forall|k: i64| #[trigger] a@.contains_key(k) implies b@.contains_key(k) && b@[k]
            == a@[k] by {
            assert(keys@.to_set().contains(k));
            let j = choose|j: int| 0 <= j < keys@.len() && keys@[j] == k;
            assert(b@.contains_key(keys@[j]));
        }
    }
    true
}

/// Whether two maps hold the same entries.
pub fn int_maps_equal(a: &HashMap<i64, i64>, b: &HashMap<i64, i64>) -> (r: bool)
    ensures
        r == (a@ == b@),
{
    let forth = int_map_within(a, b);
    let back = int_map_within(b, a);
    proof {
        if forth && back {
            assert(a@ =~= b@);
        }
    }
    forth && back
}

/// The texts that a map holds under its keys.
pub open spec fn text_map(m: Map<i32, String>) -> Map<i32, Seq<char>> {
    m.map_values(|s: String| s@)
}

/// Every entry of `a` is an entry of `b`, with the same text.
fn text_map_within(a: &HashMap<i32, String>, b: &HashMap<i32, String>) -> (r: bool)
    ensures
        r == (forall|k: i32| #[trigger]
            a@.contains_key(k) ==> b@.contains_key(k) && b@[k]@ == a@[k]@),
{
    broadcast use vstd::std_specs::hash::group_hash_axioms;
    let keys = keys_i32(a);
    let mut i: usize = 0;
    while i < keys.len()
        invariant
            i <= keys.len(),
            keys@.to_set() == a@.dom(),
            forall|j: int|
                0 <= j < i ==> b@.contains_key(#[trigger] keys@[j]) && b@[keys@[j]]@
                    == a@[keys@[j]]@,
        decreases keys.len() - i,
    {
        let k = keys[i];
        assert(keys@.to_set().contains(k));
        let ok = match (a.get(&k), b.get(&k)) {
            (Some(x), Some(y)) => crate::text::same_text(x.as_str(), y.as_str()),
            _ => false,
        };
        if !ok {
            assert(a@.contains_key(k));
            return false;
        }
        i += 1;
    }
    proof {
        assert forall|k: i32| #[trigger] a@.contains_key(k) implies b@.contains_key(k) && b@[k]@
            == a@[k]@ by {
            assert(keys@.to_set().contains(k));
            let j = choose|j: int| 0 <= j < keys@.len() && keys@[j] == k;
            assert(b@.contains_key(keys@[j]));
        }
    }
    true
}

/// Whether two maps hold the same texts under the same keys.
pub fn text_maps_equal(a: &HashMap<i32, String>, b: &HashMap<i32, String>) -> (r: bool)
    ensures
        r == (text_map(a@) == text_map(b@)),
{
    let forth = text_map_within(a, b);
    let back = text_map_within(b, a);
    proof {
        if forth && back {
            assert(text_map(a@) =~= text_map(b@));
        } else if !forth {
            let k = choose|k: i32| #[trigger]
                a@.contains_key(k) && !(b@.contains_key(k) && b@[k]@ == a@[k]@);
            assert(text_map(a@).contains_key(k));
            if text_map(b@).contains_key(k) {
                assert(text_map(b@)[k] != text_map(a@)[k]);
            }
        } else {
            let k = choose|k: i32| #[trigger]
                b@.contains_key(k) && !(a@.contains_key(k) && a@[k]@ == b@[k]@);
            assert(text_map(b@).contains_key(k));
            if text_map(a@).contains_key(k) {
                assert(text_map(b@)[k] != text_map(a@)[k]);
            }
        }
    }
    forth && back
}

} // verus!
