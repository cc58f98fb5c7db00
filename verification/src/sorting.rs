//! The order of the files of every group: actions and emotions that the
//! configuration lists come first, in its order; the others follow as text.

use vstd::prelude::*;
use std::collections::HashMap;
use indexmap::IndexMap;
use crate::file_order::{lemma_rank_holds_name, name_le, rank_of, texts};
use crate::forms::map_keys;
use crate::ordered::{file_entries, files_get_index, files_len, files_sort, sorted_names};
use crate::sprite_config::SpriteConfig;
use crate::tracker::Group;

verus! {

/// `b` holds the pairs of `a`, with the names in the order that `order`
/// gives.
pub open spec fn files_sorted(
    order: Seq<Seq<char>>,
    a: IndexMap<String, bool>,
    b: IndexMap<String, bool>,
) -> bool {
    file_entries(b).to_multiset() == file_entries(a).to_multiset() && sorted_names(
        order,
        file_entries(b),
    )
}

/// `b` is the group `a` with its sprite files in the order of the actions
/// and its portrait files in the order of the emotions; nothing else of the
/// group itself differs.
pub open spec fn sorted_pair(config: &SpriteConfig, a: Group, b: Group) -> bool {
    &&& files_sorted(texts(config.actions@), a.sprite_files, b.sprite_files)
    &&& files_sorted(texts(config.emotions@), a.portrait_files, b.portrait_files)
    &&& b.canon == a.canon
    &&& b.modreward == a.modreward
    &&& b.name == a.name
    &&& b.portrait_bounty == a.portrait_bounty
    &&& b.portrait_complete == a.portrait_complete
    &&& b.portrait_credit == a.portrait_credit
    &&& b.portrait_modified == a.portrait_modified
    &&& b.portrait_required == a.portrait_required
    &&& b.sprite_bounty == a.sprite_bounty
    &&& b.sprite_complete == a.sprite_complete
    &&& b.sprite_credit == a.sprite_credit
    &&& b.sprite_modified == a.sprite_modified
    &&& b.sprite_required == a.sprite_required
}

/// The group that the ids of `p` lead to, starting in the map `m`.
pub open spec fn group_at(m: Map<i64, Group>, p: Seq<i64>) -> Option<Group>
    decreases p.len(),
{
    if p.len() == 0 || !m.contains_key(p[0]) {
        None
    } else if p.len() == 1 {
        Some(m[p[0]])
    } else {
        group_at(m[p[0]].subgroups@, p.drop_first())
    }
}

/// `b` has a group wherever `a` has one, and each is the sorted counterpart
/// of the other.
pub open spec fn sorted_tree(config: &SpriteConfig, a: Map<i64, Group>, b: Map<i64, Group>) -> bool {
    forall|p: Seq<i64>|
        (#[trigger] group_at(a, p) is Some <==> group_at(b, p) is Some) && (group_at(a, p) is Some
            ==> sorted_pair(config, group_at(a, p)->0, group_at(b, p)->0))
}

/// `b` is the sorted counterpart of `a`, and so is every group below it.
pub open spec fn sorted_group(config: &SpriteConfig, a: Group, b: Group) -> bool {
    sorted_pair(config, a, b) && sorted_tree(config, a.subgroups@, b.subgroups@)
}

/// Where every group of a map has its sorted counterpart under the same id
/// in another map, the second map is the sorted tree of the first.
pub proof fn lemma_sorted_tree(config: &SpriteConfig, a: Map<i64, Group>, b: Map<i64, Group>)
    requires
        a.dom() == b.dom(),
        forall|k: i64| #[trigger] a.contains_key(k) ==> sorted_group(config, a[k], b[k]),
    ensures
        sorted_tree(config, a, b),
{
    assert forall|p: Seq<i64>|
        (#[trigger] group_at(a, p) is Some <==> group_at(b, p) is Some) && (group_at(a, p) is Some
            ==> sorted_pair(config, group_at(a, p)->0, group_at(b, p)->0)) by {
        if p.len() > 0 && a.contains_key(p[0]) {
            assert(b.contains_key(p[0]));
            assert(sorted_group(config, a[p[0]], b[p[0]]));
            if p.len() > 1 {
                let rest = p.drop_first();
                assert(group_at(a[p[0]].subgroups@, rest) is Some <==> group_at(
                    b[p[0]].subgroups@,
                    rest,
                ) is Some);
            }
        } else if p.len() > 0 {
            assert(!b.contains_key(p[0]));
        }
    }
}

/// Puts the files of one group and of every group below it in order.
pub fn sort_group(group: Group, sprite_config: &SpriteConfig) -> (r: Group)
    ensures
        sorted_group(sprite_config, group, r),
    decreases group,
{
    let Group {
        canon,
        modreward,
        name,
        portrait_bounty,
        portrait_complete,
        portrait_credit,
        portrait_files,
        portrait_modified,
        portrait_required,
        sprite_bounty,
        sprite_complete,
        sprite_credit,
        sprite_files,
        sprite_modified,
        sprite_required,
        subgroups,
    } = group;
    let mut sprite_files = sprite_files;
    let mut portrait_files = portrait_files;
    files_sort(&mut sprite_files, &sprite_config.actions);
    files_sort(&mut portrait_files, &sprite_config.emotions);
    let subgroups = sort_groups(subgroups, sprite_config);
    Group {
        canon,
        modreward,
        name,
        portrait_bounty,
        portrait_complete,
        portrait_credit,
        portrait_files,
        portrait_modified,
        portrait_required,
        sprite_bounty,
        sprite_complete,
        sprite_credit,
        sprite_files,
        sprite_modified,
        sprite_required,
        subgroups,
    }
}

/// Puts the files of every group of a map, and of every group below, in
/// order.
pub fn sort_groups(groups: HashMap<i64, Group>, sprite_config: &SpriteConfig) -> (r: HashMap<
    i64,
    Group,
>)
    ensures
        sorted_tree(sprite_config, groups@, r@),
        r@.dom() == groups@.dom(),
    decreases groups,
{
    broadcast use vstd::std_specs::hash::group_hash_axioms;
    let keys = map_keys(&groups);
    let mut cur = groups;
    let mut idx: usize = 0;
    while idx < keys.len()
        invariant
            idx <= keys.len(),
            keys@.no_duplicates(),
            keys@.to_set() == groups@.dom(),
            cur@.dom() == groups@.dom(),
            forall|j: int|
                0 <= j < idx ==> sorted_group(
                    sprite_config,
                    groups@[#[trigger] keys@[j]],
                    cur@[keys@[j]],
                ),
            forall|j: int| idx <= j < keys@.len() ==> cur@[#[trigger] keys@[j]] == groups@[keys@[j]],
        decreases keys.len() - idx,
    {
        let k: i64 = keys[idx];
        assert(keys@.to_set().contains(k));
        let ghost before = cur@;
        match cur.remove(&k) {
            None => {},
            Some(g) => {
                assert(g == groups@[k]);
                let sorted = sort_group(g, sprite_config);
                cur.insert(k, sorted);
                assert(cur@.dom() =~= groups@.dom());
            },
        }
        idx += 1;
    }
    proof {
        assert forall|k: i64| #[trigger] groups@.contains_key(k) implies sorted_group(
            sprite_config,
            groups@[k],
            cur@[k],
        ) by {
            assert(keys@.to_set().contains(k));
            let j = choose|j: int| 0 <= j < keys@.len() && keys@[j] == k;
            assert(sorted_group(sprite_config, groups@[keys@[j]], cur@[keys@[j]]));
        }
        lemma_sorted_tree(sprite_config, groups@, cur@);
    }
    cur
}

/// Puts the files of every group of the tracker in the order that the
/// configuration declares.
pub fn sort_tracker_by_sprite_config(tracker: &mut HashMap<i64, Group>, sprite_config: &SpriteConfig)
    ensures
        sorted_tree(sprite_config, old(tracker)@, final(tracker)@),
        final(tracker)@.dom() == old(tracker)@.dom(),
{
    let mut taken: HashMap<i64, Group> = HashMap::new();
    std::mem::swap(tracker, &mut taken);
    *tracker = sort_groups(taken, sprite_config);
}

/// In a sorted list of files, two names that the order lists stand as the
/// order lists them: the earlier one of the list has the lower rank.
pub proof fn lemma_sorted_files_follow_order(
    order: Seq<Seq<char>>,
    files: Seq<(Seq<char>, bool)>,
    i: int,
    j: int,
)
    requires
        sorted_names(order, files),
        crate::ordered::distinct_keys(files),
        0 <= i < j < files.len(),
        rank_of(order, files[i].0) is Some,
        rank_of(order, files[j].0) is Some,
    ensures
        rank_of(order, files[i].0)->0 < rank_of(order, files[j].0)->0,
{
    lemma_rank_holds_name(order, files[i].0);
    lemma_rank_holds_name(order, files[j].0);
    assert(name_le(order, files[i].0, files[j].0));
}

/// In a sorted list of files, no name that the order lacks stands before one
/// that it lists.
pub proof fn lemma_sorted_files_known_first(
    order: Seq<Seq<char>>,
    files: Seq<(Seq<char>, bool)>,
    i: int,
    j: int,
)
    requires
        sorted_names(order, files),
        0 <= i < j < files.len(),
        rank_of(order, files[j].0) is Some,
    ensures
        rank_of(order, files[i].0) is Some,
{
    assert(name_le(order, files[i].0, files[j].0));
}

/// The names of a map of files, in the map's order.
pub fn file_names(files: &IndexMap<String, bool>) -> (r: Vec<String>)
    ensures
        r@.len() == file_entries(*files).len(),
        forall|i: int| 0 <= i < r@.len() ==> (#[trigger] r@[i])@ == file_entries(*files)[i].0,
        crate::ordered::distinct_keys(file_entries(*files)),
{
    let n = files_len(files);
    let mut out: Vec<String> = Vec::new();
    let mut i: usize = 0;
    while i < n
        invariant
            i <= n,
            n == file_entries(*files).len(),
            out@.len() == i,
            forall|k: int| 0 <= k < i ==> (#[trigger] out@[k])@ == file_entries(*files)[k].0,
            forall|a: int, b: int|
                0 <= a < i && 0 <= b < n && a != b ==> file_entries(*files)[a].0 != file_entries(
                    *files,
                )[b].0,
        decreases n - i,
    {
        let (name, _locked) = files_get_index(files, i);
        out.push(name);
        i += 1;
    }
    out
}

} // verus!
