//! When two snapshots hold the same content.

use vstd::prelude::*;
use std::collections::HashMap;
use crate::credit_names::{CreditNames, CreditNamesRow, name_models};
use crate::maps::{int_maps_equal, keys_i64, text_map, text_maps_equal};
use crate::ordered::{file_entries, files_same};
use crate::sorting::group_at;
use crate::sprite_config::SpriteConfig;
use crate::text::same_text;
use crate::tracker::{Credit, Group, Timestamp, name_texts};

verus! {

/// Whether two lists of strings hold the same texts.
pub fn same_names(a: &Vec<String>, b: &Vec<String>) -> (r: bool)
    ensures
        r == (name_texts(a@) == name_texts(b@)),
{
    if a.len() != b.len() {
        assert(name_texts(a@).len() != name_texts(b@).len());
        return false;
    }
    let mut i: usize = 0;
    while i < a.len()
        invariant
            i <= a.len(),
            a.len() == b.len(),
            forall|k: int| 0 <= k < i ==> a@[k]@ == b@[k]@,
        decreases a.len() - i,
    {
        if !same_text(a[i].as_str(), b[i].as_str()) {
            assert(name_texts(a@)[i as int] != name_texts(b@)[i as int]);
            return false;
        }
        i += 1;
    }
    assert(name_texts(a@) =~= name_texts(b@));
    true
}

/// The lists of numbers as sequences.
pub open spec fn number_lists(v: Seq<Vec<i32>>) -> Seq<Seq<i32>> {
    Seq::new(v.len(), |i: int| v[i]@)
}

fn same_numbers(a: &Vec<i32>, b: &Vec<i32>) -> (r: bool)
    ensures
        r == (a@ == b@),
{
    if a.len() != b.len() {
        return false;
    }
    let mut i: usize = 0;
    while i < a.len()
        invariant
            i <= a.len(),
            a.len() == b.len(),
            forall|k: int| 0 <= k < i ==> a@[k] == b@[k],
        decreases a.len() - i,
    {
        if a[i] != b[i] {
            return false;
        }
        i += 1;
    }
    assert(a@ =~= b@);
    true
}

fn same_number_lists(a: &Vec<Vec<i32>>, b: &Vec<Vec<i32>>) -> (r: bool)
    ensures
        r == (number_lists(a@) == number_lists(b@)),
{
    if a.len() != b.len() {
        assert(number_lists(a@).len() != number_lists(b@).len());
        return false;
    }
    let mut i: usize = 0;
    while i < a.len()
        invariant
            i <= a.len(),
            a.len() == b.len(),
            forall|k: int| 0 <= k < i ==> a@[k]@ == b@[k]@,
        decreases a.len() - i,
    {
        if !same_numbers(&a[i], &b[i]) {
            assert(number_lists(a@)[i as int] != number_lists(b@)[i as int]);
            return false;
        }
        i += 1;
    }
    assert(number_lists(a@) =~= number_lists(b@));
    true
}

/// Two configurations hold the same values.
pub open spec fn same_config(a: &SpriteConfig, b: &SpriteConfig) -> bool {
    &&& a.portrait_size == b.portrait_size
    &&& a.portrait_tile_x == b.portrait_tile_x
    &&& a.portrait_tile_y == b.portrait_tile_y
    &&& number_lists(a.completion_emotions@) == number_lists(b.completion_emotions@)
    &&& name_texts(a.emotions@) == name_texts(b.emotions@)
    &&& number_lists(a.completion_actions@) == number_lists(b.completion_actions@)
    &&& name_texts(a.actions@) == name_texts(b.actions@)
    &&& text_map(a.action_map@) == text_map(b.action_map@)
}

/// Whether two configurations hold the same values.
pub fn configs_equal(a: &SpriteConfig, b: &SpriteConfig) -> (r: bool)
    ensures
        r == same_config(a, b),
{
    a.portrait_size == b.portrait_size && a.portrait_tile_x == b.portrait_tile_x
        && a.portrait_tile_y == b.portrait_tile_y && same_number_lists(
        &a.completion_emotions,
        &b.completion_emotions,
    ) && same_names(&a.emotions, &b.emotions) && same_number_lists(
        &a.completion_actions,
        &b.completion_actions,
    ) && same_names(&a.actions, &b.actions) && text_maps_equal(&a.action_map, &b.action_map)
}

/// Two credits name the same artists.
pub open spec fn same_credit(a: &Credit, b: &Credit) -> bool {
    a.primary@ == b.primary@ && name_texts(a.secondary@) == name_texts(b.secondary@) && a.total
        == b.total
}

fn credits_equal(a: &Credit, b: &Credit) -> (r: bool)
    ensures
        r == same_credit(a, b),
{
    same_text(a.primary.as_str(), b.primary.as_str()) && same_names(&a.secondary, &b.secondary)
        && a.total == b.total
}

fn times_equal(a: &Option<Timestamp>, b: &Option<Timestamp>) -> (r: bool)
    ensures
        r == (*a == *b),
{
    match (a, b) {
        (Some(x), Some(y)) => x.secs == y.secs && x.nanos == y.nanos,
        (None, None) => true,
        _ => false,
    }
}

/// Two groups hold the same values, their subgroups left aside. The files
/// are compared as maps: the same names with the same flags, whatever their
/// order.
pub open spec fn same_pair(a: Group, b: Group) -> bool {
    &&& a.canon == b.canon
    &&& a.modreward == b.modreward
    &&& a.name@ == b.name@
    &&& a.portrait_bounty@ == b.portrait_bounty@
    &&& a.portrait_complete == b.portrait_complete
    &&& same_credit(&a.portrait_credit, &b.portrait_credit)
    &&& file_entries(a.portrait_files).to_set() == file_entries(b.portrait_files).to_set()
    &&& a.portrait_modified == b.portrait_modified
    &&& a.portrait_required == b.portrait_required
    &&& a.sprite_bounty@ == b.sprite_bounty@
    &&& a.sprite_complete == b.sprite_complete
    &&& same_credit(&a.sprite_credit, &b.sprite_credit)
    &&& file_entries(a.sprite_files).to_set() == file_entries(b.sprite_files).to_set()
    &&& a.sprite_modified == b.sprite_modified
    &&& a.sprite_required == b.sprite_required
}

fn pairs_equal(a: &Group, b: &Group) -> (r: bool)
    ensures
        r == same_pair(*a, *b),
{
    a.canon == b.canon && a.modreward == b.modreward && same_text(a.name.as_str(), b.name.as_str())
        && int_maps_equal(&a.portrait_bounty, &b.portrait_bounty) && a.portrait_complete
        == b.portrait_complete && credits_equal(&a.portrait_credit, &b.portrait_credit)
        && files_same(&a.portrait_files, &b.portrait_files) && times_equal(
        &a.portrait_modified,
        &b.portrait_modified,
    ) && a.portrait_required == b.portrait_required && int_maps_equal(
        &a.sprite_bounty,
        &b.sprite_bounty,
    ) && a.sprite_complete == b.sprite_complete && credits_equal(&a.sprite_credit, &b.sprite_credit)
        && files_same(&a.sprite_files, &b.sprite_files) && times_equal(
        &a.sprite_modified,
        &b.sprite_modified,
    ) && a.sprite_required == b.sprite_required
}

/// The two trees agree at the path `p`: both have a group there or neither
/// has, and the two groups hold the same values.
pub open spec fn agree_at(a: Map<i64, Group>, b: Map<i64, Group>, p: Seq<i64>) -> bool {
    (group_at(a, p) is Some <==> group_at(b, p) is Some) && (group_at(a, p) is Some ==> same_pair(
        group_at(a, p)->0,
        group_at(b, p)->0,
    ))
}

/// Two trees of groups hold the same groups with the same values.
pub open spec fn same_tree(a: Map<i64, Group>, b: Map<i64, Group>) -> bool {
    forall|p: Seq<i64>| #[trigger] agree_at(a, b, p)
}

/// The trees agree at a path below a group where the subtrees of the group
/// agree at the rest of the path.
proof fn lemma_agree_below(a: Map<i64, Group>, b: Map<i64, Group>, k: i64, rest: Seq<i64>)
    requires
        a.contains_key(k),
        b.contains_key(k),
        rest.len() > 0,
    ensures
        agree_at(a, b, seq![k] + rest) == agree_at(a[k].subgroups@, b[k].subgroups@, rest),
{
    let p = seq![k] + rest;
    assert(p[0] == k);
    assert(p.drop_first() =~= rest);
}

/// Everything of `a` is in `b` with the same values.
fn tree_within(a: &HashMap<i64, Group>, b: &HashMap<i64, Group>) -> (r: bool)
    ensures
        r ==> a@.dom().subset_of(b@.dom()) && forall|k: i64| #[trigger]
            a@.contains_key(k) ==> same_pair(a@[k], b@[k]) && same_tree(
                a@[k].subgroups@,
                b@[k].subgroups@,
            ),
        !r ==> exists|p: Seq<i64>| !agree_at(a@, b@, p),
    decreases a, 0int,
{
    broadcast use vstd::std_specs::hash::group_hash_axioms;
    let keys = keys_i64(a);
    let mut i: usize = 0;
    while i < keys.len()
        invariant
            i <= keys.len(),
            keys@.to_set() == a@.dom(),
            forall|j: int|
                0 <= j < i ==> b@.contains_key(#[trigger] keys@[j]) && same_pair(
                    a@[keys@[j]],
                    b@[keys@[j]],
                ) && same_tree(a@[keys@[j]].subgroups@, b@[keys@[j]].subgroups@),
        decreases keys.len() - i,
    {
        let k = keys[i];
        assert(keys@.to_set().contains(k));
        let ga = match a.get(&k) {
            Some(g) => g,
            None => {
                assert(false);
                return false;
            },
        };
        let gb = match b.get(&k) {
            Some(g) => g,
            None => {
                proof {
                    let p = seq![k];
                    assert(group_at(a@, p) is Some);
                    assert(group_at(b@, p) is None);
                    assert(!agree_at(a@, b@, p));
                }
                return false;
            },
        };
        if !pairs_equal(ga, gb) {
            proof {
                let p = seq![k];
                assert(group_at(a@, p) == Some(*ga));
                assert(group_at(b@, p) == Some(*gb));
                assert(!agree_at(a@, b@, p));
            }
            return false;
        }
        if !trees_equal(&ga.subgroups, &gb.subgroups) {
            proof {
                let rest = choose|q: Seq<i64>| !agree_at(ga.subgroups@, gb.subgroups@, q);
                if rest.len() == 0 {
                    assert(group_at(ga.subgroups@, rest) is None);
                    assert(group_at(gb.subgroups@, rest) is None);
                }
                lemma_agree_below(a@, b@, k, rest);
                assert(!agree_at(a@, b@, seq![k] + rest));
            }
            return false;
        }
        i += 1;
    }
    proof {
        assert forall|k: i64| #[trigger] a@.contains_key(k) implies b@.contains_key(k) && same_pair(
            a@[k],
            b@[k],
        ) && same_tree(a@[k].subgroups@, b@[k].subgroups@) by {
            assert(keys@.to_set().contains(k));
            let j = choose|j: int| 0 <= j < keys@.len() && keys@[j] == k;
            assert(b@.contains_key(keys@[j]));
        }
    }
    true
}

/// Every id of `b` is in `a`.
fn ids_within(b: &HashMap<i64, Group>, a: &HashMap<i64, Group>) -> (r: bool)
    ensures
        r ==> b@.dom().subset_of(a@.dom()),
        !r ==> exists|p: Seq<i64>| !agree_at(a@, b@, p),
{
    broadcast use vstd::std_specs::hash::group_hash_axioms;
    let keys = keys_i64(b);
    let mut i: usize = 0;
    while i < keys.len()
        invariant
            i <= keys.len(),
            keys@.to_set() == b@.dom(),
            forall|j: int| 0 <= j < i ==> a@.contains_key(#[trigger] keys@[j]),
        decreases keys.len() - i,
    {
        let k = keys[i];
        assert(keys@.to_set().contains(k));
        if !a.contains_key(&k) {
            proof {
                let p = seq![k];
                assert(group_at(b@, p) is Some);
                assert(group_at(a@, p) is None);
                assert(!agree_at(a@, b@, p));
            }
            return false;
        }
        i += 1;
    }
    proof {
        assert forall|k: i64| b@.dom().contains(k) implies a@.dom().contains(k) by {
            assert(keys@.to_set().contains(k));
            let j = choose|j: int| 0 <= j < keys@.len() && keys@[j] == k;
            assert(a@.contains_key(keys@[j]));
        }
    }
    true
}

/// Whether two trees of groups hold the same groups with the same values.
pub fn trees_equal(a: &HashMap<i64, Group>, b: &HashMap<i64, Group>) -> (r: bool)
    ensures
        r == same_tree(a@, b@),
    decreases a, 1int,
{
    if !tree_within(a, b) {
        return false;
    }
    if !ids_within(b, a) {
        return false;
    }
    proof {
        assert(a@.dom() =~= b@.dom());
        assert forall|p: Seq<i64>| #[trigger] agree_at(a@, b@, p) by {
            if p.len() > 0 && a@.contains_key(p[0]) {
                if p.len() > 1 {
                    let rest = p.drop_first();
                    assert(agree_at(a@[p[0]].subgroups@, b@[p[0]].subgroups@, rest));
                }
            } else if p.len() > 0 {
                assert(!b@.contains_key(p[0]));
            }
        }
    }
    true
}

/// Whether two lists of credit names hold the same rows.
pub fn names_equal(a: &CreditNames, b: &CreditNames) -> (r: bool)
    ensures
        r == (name_models(a.data@) == name_models(b.data@)),
{
    if a.data.len() != b.data.len() {
        assert(name_models(a.data@).len() != name_models(b.data@).len());
        return false;
    }
    let mut i: usize = 0;
    while i < a.data.len()
        invariant
            i <= a.data.len(),
            a.data.len() == b.data.len(),
            forall|k: int| 0 <= k < i ==> a.data@[k].model() == b.data@[k].model(),
        decreases a.data.len() - i,
    {
        if !rows_equal(&a.data[i], &b.data[i]) {
            assert(name_models(a.data@)[i as int] != name_models(b.data@)[i as int]);
            return false;
        }
        i += 1;
    }
    assert(name_models(a.data@) =~= name_models(b.data@));
    true
}

fn opt_texts_equal(a: &Option<String>, b: &Option<String>) -> (r: bool)
    ensures
        r == (crate::credit_names::opt_text(*a) == crate::credit_names::opt_text(*b)),
{
    match (a, b) {
        (Some(x), Some(y)) => same_text(x.as_str(), y.as_str()),
        (None, None) => true,
        _ => false,
    }
}

fn rows_equal(a: &CreditNamesRow, b: &CreditNamesRow) -> (r: bool)
    ensures
        r == (a.model() == b.model()),
{
    same_text(a.credit_id.as_str(), b.credit_id.as_str()) && opt_texts_equal(&a.name, &b.name)
        && opt_texts_equal(&a.contact, &b.contact)
}

} // verus!
