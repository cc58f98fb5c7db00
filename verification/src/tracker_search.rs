//! The search for monsters by name: an index from the names of all groups, in
//! lower case, to the monsters that have a group of that name.

use vstd::prelude::*;
use std::collections::HashMap;
use crate::forms::key_done;
use crate::maps::keys_i64;
use crate::sorting::group_at;
use crate::search::{IndexEntry, fuzzy_find, index_view, lowercase, lowercased, search_result};
use crate::text::same_text;
use crate::tracker::{Group, Tracker};

verus! {

/// The first place of a key in an index; -1 where the index lacks it.
pub open spec fn entry_of(index: Seq<IndexEntry>, key: Seq<char>) -> int
    decreases index.len(),
{
    if index.len() == 0 {
        -1
    } else {
        let before = entry_of(index.drop_last(), key);
        if before >= 0 {
            before
        } else if index.last().key == key {
            index.len() - 1
        } else {
            -1
        }
    }
}

/// The index after `id` was added under `key`: at the end of the ids of the
/// key's entry, or as a new entry at the end.
pub open spec fn with_id(index: Seq<IndexEntry>, key: Seq<char>, id: i64) -> Seq<IndexEntry> {
    let at = entry_of(index, key);
    if 0 <= at < index.len() {
        index.update(at, IndexEntry { key, ids: index[at].ids.push(id) })
    } else {
        index.push(IndexEntry { key, ids: seq![id] })
    }
}

/// What `entry_of` finds is a place of the key, and the first one.
pub proof fn lemma_entry_of(index: Seq<IndexEntry>, key: Seq<char>)
    ensures
        -1 <= entry_of(index, key) < index.len(),
        entry_of(index, key) >= 0 ==> index[entry_of(index, key)].key == key,
        entry_of(index, key) < 0 ==> forall|j: int| 0 <= j < index.len() ==> index[j].key != key,
        entry_of(index, key) >= 0 ==> forall|j: int|
            0 <= j < entry_of(index, key) ==> index[j].key != key,
    decreases index.len(),
{
    if index.len() > 0 {
        lemma_entry_of(index.drop_last(), key);
        assert forall|j: int| 0 <= j < index.len() - 1 implies index.drop_last()[j] == index[j] by {}
        if entry_of(index.drop_last(), key) >= 0 {
            let i = entry_of(index.drop_last(), key);
            assert(index.drop_last()[i] == index[i]);
            assert forall|j: int| 0 <= j < i implies index[j].key != key by {
                assert(index.drop_last()[j] == index[j]);
            }
        } else {
            assert forall|j: int| 0 <= j < index.len() - 1 implies index[j].key != key by {
                assert(index.drop_last()[j] == index[j]);
            }
        }
    }
}

fn copy_ids(ids: &Vec<i64>) -> (r: Vec<i64>)
    ensures
        r@ == ids@,
{
    let mut out: Vec<i64> = Vec::new();
    let mut k: usize = 0;
    while k < ids.len()
        invariant
            k <= ids.len(),
            out@ == ids@.subrange(0, k as int),
        decreases ids.len() - k,
    {
        out.push(ids[k]);
        k += 1;
    }
    assert(ids@.subrange(0, ids@.len() as int) =~= ids@);
    out
}

/// Adds a monster to the index under a name, the name taken in lower case.
pub fn fft_insert(names: &mut Vec<(String, Vec<i64>)>, monster_idx: i64, name: &str)
    ensures
        index_view(final(names)@) == with_id(index_view(old(names)@), lowercased(name@), monster_idx),
{
    let key = lowercase(name);
    let ghost before = index_view(names@);
    proof {
        lemma_entry_of(before, key@);
    }
    let mut i: usize = 0;
    while i < names.len()
        invariant
            i <= names.len(),
            names@ == old(names)@,
            before == index_view(names@),
            key@ == lowercased(name@),
            forall|j: int| 0 <= j < i ==> before[j].key != key@,
        decreases names.len() - i,
    {
        if same_text(names[i].0.as_str(), key.as_str()) {
            proof {
                lemma_entry_of(before, key@);
                assert(before[i as int].key == key@);
                assert(entry_of(before, key@) == i);
            }
            let mut ids = copy_ids(&names[i].1);
            ids.push(monster_idx);
            assert(ids@ =~= before[i as int].ids.push(monster_idx));
            names[i] = (key, ids);
            assert(index_view(names@) =~= with_id(before, lowercased(name@), monster_idx));
            return ;
        }
        i += 1;
    }
    proof {
        lemma_entry_of(before, key@);
    }
    let mut ids: Vec<i64> = Vec::new();
    ids.push(monster_idx);
    assert(ids@ =~= seq![monster_idx]);
    names.push((key, ids));
    assert(index_view(names@) =~= with_id(before, lowercased(name@), monster_idx));
}

/// `new` comes from `old` by adding the id `id` only: the entries of `old`
/// keep their keys and their ids, with `id` added to some of them; the
/// entries behind them hold nothing but `id`.
pub open spec fn grown_by(old: Seq<IndexEntry>, new: Seq<IndexEntry>, id: i64) -> bool {
    &&& old.len() <= new.len()
    &&& forall|i: int|
        0 <= i < old.len() ==> (#[trigger] new[i]).key == old[i].key && old[i].ids.len()
            <= new[i].ids.len() && new[i].ids.subrange(0, old[i].ids.len() as int) == old[i].ids
            && forall|k: int| old[i].ids.len() <= k < new[i].ids.len() ==> new[i].ids[k] == id
    &&& forall|i: int, k: int|
        old.len() <= i < new.len() && 0 <= k < new[i].ids.len() ==> #[trigger] new[i].ids[k] == id
}

/// An index grows from itself.
pub proof fn lemma_grown_refl(a: Seq<IndexEntry>, id: i64)
    ensures
        grown_by(a, a, id),
{
    assert forall|i: int| 0 <= i < a.len() implies (#[trigger] a[i]).ids.subrange(
        0,
        a[i].ids.len() as int,
    ) == a[i].ids by {
        assert(a[i].ids.subrange(0, a[i].ids.len() as int) =~= a[i].ids);
    }
}

/// Growth goes on: what grew from an index that grew from another, grew from
/// that other.
pub proof fn lemma_grown_trans(a: Seq<IndexEntry>, b: Seq<IndexEntry>, c: Seq<IndexEntry>, id: i64)
    requires
        grown_by(a, b, id),
        grown_by(b, c, id),
    ensures
        grown_by(a, c, id),
{
    assert forall|i: int| 0 <= i < a.len() implies (#[trigger] c[i]).key == a[i].key
        && a[i].ids.len() <= c[i].ids.len() && c[i].ids.subrange(0, a[i].ids.len() as int)
        == a[i].ids && forall|k: int| a[i].ids.len() <= k < c[i].ids.len() ==> c[i].ids[k] == id by {
        assert(b[i].key == a[i].key);
        assert(c[i].key == b[i].key);
        assert(c[i].ids.subrange(0, a[i].ids.len() as int) =~= a[i].ids) by {
            assert forall|k: int| 0 <= k < a[i].ids.len() implies c[i].ids[k] == a[i].ids[k] by {
                assert(c[i].ids.subrange(0, b[i].ids.len() as int)[k] == c[i].ids[k]);
                assert(b[i].ids.subrange(0, a[i].ids.len() as int)[k] == b[i].ids[k]);
            }
        }
        assert forall|k: int| a[i].ids.len() <= k < c[i].ids.len() implies c[i].ids[k] == id by {
            if k < b[i].ids.len() {
                assert(c[i].ids.subrange(0, b[i].ids.len() as int)[k] == c[i].ids[k]);
            }
        }
    }
    assert forall|i: int, k: int|
        a.len() <= i < c.len() && 0 <= k < c[i].ids.len() implies #[trigger] c[i].ids[k] == id by {
        if i < b.len() {
            if k < b[i].ids.len() {
                assert(c[i].ids.subrange(0, b[i].ids.len() as int)[k] == c[i].ids[k]);
                assert(b[i].ids[k] == id);
            }
        }
    }
}

/// Adding an id makes an index grow by that id.
pub proof fn lemma_with_id_grows(a: Seq<IndexEntry>, key: Seq<char>, id: i64)
    ensures
        grown_by(a, with_id(a, key, id), id),
{
    lemma_entry_of(a, key);
    let b = with_id(a, key, id);
    assert forall|i: int| 0 <= i < a.len() implies (#[trigger] b[i]).key == a[i].key
        && a[i].ids.len() <= b[i].ids.len() && b[i].ids.subrange(0, a[i].ids.len() as int)
        == a[i].ids && forall|k: int| a[i].ids.len() <= k < b[i].ids.len() ==> b[i].ids[k] == id by {
        assert(b[i].ids.subrange(0, a[i].ids.len() as int) =~= a[i].ids);
    }
}

/// The index has `id` under `key`.
pub open spec fn has_entry(index: Seq<IndexEntry>, key: Seq<char>, id: i64) -> bool {
    exists|i: int| 0 <= i < index.len() && (#[trigger] index[i]).key == key && index[i].ids.contains(id)
}

/// What an index has, it has after growing.
pub proof fn lemma_entry_stays(old: Seq<IndexEntry>, new: Seq<IndexEntry>, by: i64, key: Seq<char>, id: i64)
    requires
        grown_by(old, new, by),
        has_entry(old, key, id),
    ensures
        has_entry(new, key, id),
{
    let i = choose|i: int| 0 <= i < old.len() && (#[trigger] old[i]).key == key && old[i].ids.contains(id);
    let k = choose|k: int| 0 <= k < old[i].ids.len() && old[i].ids[k] == id;
    assert(new[i].key == old[i].key);
    assert(new[i].ids.subrange(0, old[i].ids.len() as int)[k] == new[i].ids[k]);
    assert(new[i].ids[k] == id);
}

/// After an id was added under a key, the index has it there.
pub proof fn lemma_with_id_has(a: Seq<IndexEntry>, key: Seq<char>, id: i64)
    ensures
        has_entry(with_id(a, key, id), key, id),
{
    lemma_entry_of(a, key);
    let b = with_id(a, key, id);
    let at = entry_of(a, key);
    if 0 <= at < a.len() {
        assert(b[at].key == key);
        assert(b[at].ids[a[at].ids.len() as int] == id);
    } else {
        assert(b[a.len() as int].key == key);
        assert(b[a.len() as int].ids[0] == id);
    }
}

/// The index has `id` under the name, in lower case, of every group of the
/// tree whose path begins with one of the first `n` of `keys`.
pub open spec fn covers(
    index: Seq<IndexEntry>,
    tree: Map<i64, Group>,
    keys: Seq<i64>,
    n: int,
    id: i64,
) -> bool {
    forall|q: Seq<i64>| #[trigger]
        group_at(tree, q) is Some && key_done(keys, n, q[0]) ==> has_entry(
            index,
            lowercased(group_at(tree, q)->0.name@),
            id,
        )
}

/// The index has `id` under the name, in lower case, of every group of the
/// tree.
pub open spec fn covers_tree(index: Seq<IndexEntry>, tree: Map<i64, Group>, id: i64) -> bool {
    forall|q: Seq<i64>| #[trigger]
        group_at(tree, q) is Some ==> has_entry(index, lowercased(group_at(tree, q)->0.name@), id)
}

/// Adds a monster to the index under the names of all groups of a tree.
pub fn fft_recurse(names: &mut Vec<(String, Vec<i64>)>, monster_idx: i64, subgroups: &HashMap<i64, Group>)
    ensures
        grown_by(index_view(old(names)@), index_view(final(names)@), monster_idx),
        covers_tree(index_view(final(names)@), subgroups@, monster_idx),
    decreases subgroups,
{
    broadcast use vstd::std_specs::hash::group_hash_axioms;
    let keys = keys_i64(subgroups);
    let mut i: usize = 0;
    proof {
        lemma_grown_refl(index_view(names@), monster_idx);
    }
    while i < keys.len()
        invariant
            i <= keys.len(),
            keys@.to_set() == subgroups@.dom(),
            grown_by(index_view(old(names)@), index_view(names@), monster_idx),
            covers(index_view(names@), subgroups@, keys@, i as int, monster_idx),
        decreases keys.len() - i,
    {
        let k = keys[i];
        assert(keys@.to_set().contains(k));
        match subgroups.get(&k) {
            None => {
                assert(false);
            },
            Some(grp) => {
                let ghost a = index_view(names@);
                fft_insert(names, monster_idx, grp.name.as_str());
                let ghost b = index_view(names@);
                fft_recurse(names, monster_idx, &grp.subgroups);
                proof {
                    let c = index_view(names@);
                    lemma_with_id_grows(a, lowercased(grp.name@), monster_idx);
                    lemma_with_id_has(a, lowercased(grp.name@), monster_idx);
                    lemma_grown_trans(a, b, c, monster_idx);
                    lemma_grown_trans(index_view(old(names)@), a, c, monster_idx);
                    lemma_entry_stays(b, c, monster_idx, lowercased(grp.name@), monster_idx);
                    assert forall|q: Seq<i64>| #[trigger]
                        group_at(subgroups@, q) is Some && key_done(
                            keys@,
                            i as int + 1,
                            q[0],
                        ) implies has_entry(
                        c,
                        lowercased(group_at(subgroups@, q)->0.name@),
                        monster_idx,
                    ) by {
                        let name = lowercased(group_at(subgroups@, q)->0.name@);
                        if key_done(keys@, i as int, q[0]) {
                            assert(has_entry(a, name, monster_idx));
                            lemma_entry_stays(a, c, monster_idx, name, monster_idx);
                        } else {
                            let j = choose|j: int| 0 <= j < i + 1 && #[trigger] keys@[j] == q[0];
                            assert(q[0] == k);
                            if q.len() > 1 {
                                let rest = q.drop_first();
                                assert(group_at(subgroups@, q) == group_at(grp.subgroups@, rest));
                            }
                        }
                    }
                }
            },
        }
        i += 1;
    }
    proof {
        assert forall|q: Seq<i64>| #[trigger] group_at(subgroups@, q) is Some implies has_entry(
            index_view(names@),
            lowercased(group_at(subgroups@, q)->0.name@),
            monster_idx,
        ) by {
            assert(keys@.to_set().contains(q[0]));
            let j = choose|j: int| 0 <= j < keys@.len() && keys@[j] == q[0];
            assert(key_done(keys@, keys@.len() as int, q[0]));
        }
    }
}

/// Every id of the index is a monster of the tracker.
pub open spec fn ids_are_monsters(index: Seq<IndexEntry>, tracker: Map<i64, Group>) -> bool {
    forall|i: int, k: int|
        0 <= i < index.len() && 0 <= k < index[i].ids.len() ==> tracker.contains_key(
            #[trigger] index[i].ids[k],
        )
}

/// The index has every monster under the name, in lower case, of each of its
/// groups, as far as the monsters are among the first `n` of `keys`.
pub open spec fn names_monsters(index: Seq<IndexEntry>, tracker: Map<i64, Group>, keys: Seq<i64>, n: int) -> bool {
    forall|q: Seq<i64>| #[trigger]
        group_at(tracker, q) is Some && key_done(keys, n, q[0]) ==> has_entry(
            index,
            lowercased(group_at(tracker, q)->0.name@),
            q[0],
        )
}

/// `index` is an index of the names of the tracker: it has every monster
/// under the name, in lower case, of the monster and of each of its forms,
/// and holds no id that is no monster.
pub open spec fn is_name_index(tracker: Map<i64, Group>, index: Seq<IndexEntry>) -> bool {
    &&& ids_are_monsters(index, tracker)
    &&& forall|q: Seq<i64>| #[trigger]
        group_at(tracker, q) is Some ==> has_entry(
            index,
            lowercased(group_at(tracker, q)->0.name@),
            q[0],
        )
}

/// Builds the index of the names of a tracker: under every name, in lower
/// case, the monsters that have a group of that name, once for each such
/// group.
pub fn build_name_index(tracker: &Tracker) -> (r: Vec<(String, Vec<i64>)>)
    ensures
        is_name_index(tracker@, index_view(r@)),
{
    broadcast use vstd::std_specs::hash::group_hash_axioms;
    let keys = keys_i64(tracker);
    let mut names: Vec<(String, Vec<i64>)> = Vec::new();
    let mut i: usize = 0;
    while i < keys.len()
        invariant
            i <= keys.len(),
            keys@.to_set() == tracker@.dom(),
            ids_are_monsters(index_view(names@), tracker@),
            names_monsters(index_view(names@), tracker@, keys@, i as int),
        decreases keys.len() - i,
    {
        let k = keys[i];
        assert(keys@.to_set().contains(k));
        match tracker.get(&k) {
            None => {
                assert(false);
            },
            Some(monster) => {
                let ghost a = index_view(names@);
                fft_insert(&mut names, k, monster.name.as_str());
                let ghost b = index_view(names@);
                fft_recurse(&mut names, k, &monster.subgroups);
                proof {
                    let c = index_view(names@);
                    lemma_with_id_grows(a, lowercased(monster.name@), k);
                    lemma_with_id_has(a, lowercased(monster.name@), k);
                    lemma_grown_trans(a, b, c, k);
                    lemma_entry_stays(b, c, k, lowercased(monster.name@), k);
                    assert forall|x: int, y: int|
                        0 <= x < c.len() && 0 <= y < c[x].ids.len() implies tracker@.contains_key(
                        #[trigger] c[x].ids[y],
                    ) by {
                        if x < a.len() {
                            if y < a[x].ids.len() {
                                assert(c[x].ids.subrange(0, a[x].ids.len() as int)[y] == c[x].ids[y]);
                                assert(tracker@.contains_key(a[x].ids[y]));
                            } else {
                                assert(c[x].ids[y] == k);
                            }
                        } else {
                            assert(c[x].ids[y] == k);
                        }
                    }
                    assert forall|q: Seq<i64>| #[trigger]
                        group_at(tracker@, q) is Some && key_done(
                            keys@,
                            i as int + 1,
                            q[0],
                        ) implies has_entry(
                        c,
                        lowercased(group_at(tracker@, q)->0.name@),
                        q[0],
                    ) by {
                        let name = lowercased(group_at(tracker@, q)->0.name@);
                        if key_done(keys@, i as int, q[0]) {
                            assert(has_entry(a, name, q[0]));
                            lemma_entry_stays(a, c, k, name, q[0]);
                        } else {
                            let j = choose|j: int| 0 <= j < i + 1 && #[trigger] keys@[j] == q[0];
                            assert(q[0] == k);
                            if q.len() > 1 {
                                let rest = q.drop_first();
                                assert(group_at(tracker@, q) == group_at(monster.subgroups@, rest));
                            }
                        }
                    }
                }
            },
        }
        i += 1;
    }
    proof {
        assert forall|q: Seq<i64>| #[trigger] group_at(tracker@, q) is Some implies has_entry(
            index_view(names@),
            lowercased(group_at(tracker@, q)->0.name@),
            q[0],
        ) by {
            assert(keys@.to_set().contains(q[0]));
            let j = choose|j: int| 0 <= j < keys@.len() && keys@[j] == q[0];
            assert(key_done(keys@, keys@.len() as int, q[0]));
        }
    }
    names
}

/// Searches the monsters whose name, or the name of one of whose forms,
/// matches the query: best match first, each monster once. The index that is
/// searched is an index of the names of the tracker; the order of its
/// entries, and with it the order of monsters with equal scores, is not
/// fixed.
pub fn fuzzy_find_tracker(tracker: &Tracker, monster_name: &str) -> (r: Vec<i64>)
    ensures
        exists|index: Seq<IndexEntry>| #[trigger]
            is_name_index(tracker@, index) && r@ == search_result(index, monster_name@),
{
    let index = build_name_index(tracker);
    let r = fuzzy_find(&index, monster_name);
    assert(is_name_index(tracker@, index_view(index@)));
    r
}

} // verus!
