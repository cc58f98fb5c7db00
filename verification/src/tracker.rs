//! The tracker: monsters and their forms as a tree of groups, and the
//! resolution of form paths against it.

use vstd::prelude::*;
use std::collections::HashMap;
use indexmap::IndexMap;
use crate::util::strip_trailing_zeros;

verus! {

/// The number that names a group among its siblings.
#[derive(Hash, PartialOrd, Ord, PartialEq, Eq, Debug, Copy, Clone)]
pub struct GroupId(pub i64);

/// The text without the zeros at its start.
pub open spec fn without_leading_zeros(s: Seq<char>) -> Seq<char>
    decreases s.len(),
{
    if s.len() > 0 && s[0] == '0' {
        without_leading_zeros(s.drop_first())
    } else {
        s
    }
}

/// The group id that a text spells: a decimal number with any number of
/// zeros in front; a text of zeros only, or the empty text, spells 0.
pub open spec fn group_id_of(s: Seq<char>) -> Option<i64> {
    let t = without_leading_zeros(s);
    if t.len() == 0 {
        Some(0i64)
    } else {
        crate::decimal::parse_i64_text(t)
    }
}

impl GroupId {
    /// Reads a group id from its text.
    pub fn from_text(text: &str) -> (r: Option<GroupId>)
        ensures
            match r {
                Some(id) => group_id_of(text@) == Some(id.0),
                None => group_id_of(text@) is None,
            },
    {
        let chars = crate::text::chars_of(text);
        let mut i: usize = 0;
        assert(chars@.subrange(0, chars@.len() as int) =~= chars@);
        while i < chars.len() && chars[i] == '0'
            invariant
                i <= chars.len(),
                without_leading_zeros(chars@) == without_leading_zeros(
                    chars@.subrange(i as int, chars@.len() as int),
                ),
            decreases chars.len() - i,
        {
            let ghost rest = chars@.subrange(i as int, chars@.len() as int);
            assert(rest[0] == chars@[i as int]);
            assert(rest.drop_first() =~= chars@.subrange(i as int + 1, chars@.len() as int));
            i += 1;
        }
        let ghost rest = chars@.subrange(i as int, chars@.len() as int);
        proof {
            if i < chars.len() {
                assert(rest[0] == chars@[i as int]);
            }
            assert(without_leading_zeros(rest) == rest);
        }
        if i == chars.len() {
            return Some(GroupId(0));
        }
        match crate::decimal::read_int(&chars, i, chars.len(), i64::MIN, i64::MAX) {
            Some(v) => Some(GroupId(v)),
            None => None,
        }
    }
}

/// A point in time: seconds since the start of 1970 in UTC, and the
/// nanoseconds within the second.
#[derive(Debug, Copy, Clone, PartialEq, Eq, Structural)]
pub struct Timestamp {
    pub secs: i64,
    pub nanos: u32,
}

impl Timestamp {
    /// `self` is earlier than `other`.
    pub open spec fn before(&self, other: &Timestamp) -> bool {
        self.secs < other.secs || (self.secs == other.secs && self.nanos < other.nanos)
    }

    /// Whether `self` is earlier than `other`.
    pub fn is_before(&self, other: &Timestamp) -> (r: bool)
        ensures
            r == self.before(other),
    {
        self.secs < other.secs || (self.secs == other.secs && self.nanos < other.nanos)
    }
}

/// The artists credited for a set of assets.
#[derive(Debug, Clone)]
pub struct Credit {
    pub primary: String,
    pub secondary: Vec<String>,
    pub total: i64,
}

/// A monster or one of its forms.
#[derive(Debug)]
pub struct Group {
    pub canon: bool,
    pub modreward: bool,
    pub name: String,
    pub portrait_bounty: HashMap<i64, i64>,
    pub portrait_complete: i64,
    pub portrait_credit: Credit,
    pub portrait_files: IndexMap<String, bool>,
    pub portrait_modified: Option<Timestamp>,
    pub portrait_required: bool,
    pub sprite_bounty: HashMap<i64, i64>,
    pub sprite_complete: i64,
    pub sprite_credit: Credit,
    pub sprite_files: IndexMap<String, bool>,
    pub sprite_modified: Option<Timestamp>,
    pub sprite_required: bool,
    pub subgroups: HashMap<i64, Group>,
}

impl Credit {
    /// A credit that names nobody.
    pub fn empty() -> (r: Credit)
        ensures
            r.primary@.len() == 0,
            r.secondary@.len() == 0,
            r.total == 0,
    {
        Credit { primary: String::new(), secondary: Vec::new(), total: 0 }
    }
}

impl Group {
    /// A group with the given name and nothing else: no files, no credits,
    /// no subgroups, both phases 0.
    pub fn named(name: &str) -> (r: Group)
        ensures
            r.name@ == name@,
            r.subgroups@ == Map::<i64, Group>::empty(),
            crate::ordered::file_entries(r.sprite_files).len() == 0,
            crate::ordered::file_entries(r.portrait_files).len() == 0,
            r.sprite_complete == 0,
            r.portrait_complete == 0,
            !r.canon && !r.modreward && !r.portrait_required && !r.sprite_required,
            r.portrait_modified is None && r.sprite_modified is None,
    {
        Group {
            canon: false,
            modreward: false,
            name: String::from_str(name),
            portrait_bounty: HashMap::new(),
            portrait_complete: 0,
            portrait_credit: Credit::empty(),
            portrait_files: crate::ordered::files_new(),
            portrait_modified: None,
            portrait_required: false,
            sprite_bounty: HashMap::new(),
            sprite_complete: 0,
            sprite_credit: Credit::empty(),
            sprite_files: crate::ordered::files_new(),
            sprite_modified: None,
            sprite_required: false,
            subgroups: HashMap::new(),
        }
    }
}

/// The monsters by their ids.
pub type Tracker = HashMap<i64, Group>;

/// What is asked of one element of a form path.
#[derive(Eq, PartialEq, Copy, Clone, Debug, Structural)]
pub enum FormMatch {
    /// Look exactly for this form ID.
    Exact(i32),
    /// Look for this form ID or fall back to 0 if it doesn't exist.
    Fallback(i32),
}

/// A form that was found: its path, the names of the groups on the way that
/// have one, and the group itself.
pub struct FoundForm {
    pub path: Seq<i32>,
    pub names: Seq<Seq<char>>,
    pub group: Group,
}

/// The name of a group as a list: empty for a group without a name.
pub open spec fn name_list(g: Group) -> Seq<Seq<char>> {
    if g.name@.len() == 0 {
        Seq::empty()
    } else {
        seq![g.name@]
    }
}

/// Walks `path` down from `g`. Every element but the last must name a
/// subgroup. A last element 0 that names no subgroup stands for the group
/// reached so far; any other last element must name a subgroup.
pub open spec fn traverse(g: Group, path: Seq<i32>) -> Option<FoundForm>
    decreases path.len(),
{
    if path.len() == 0 {
        None
    } else {
        let cur = path[0];
        if path.len() == 1 && cur == 0 && !g.subgroups@.contains_key(0i64) {
            Some(FoundForm { path: Seq::empty(), names: Seq::empty(), group: g })
        } else if g.subgroups@.contains_key(cur as i64) {
            let sub = g.subgroups@[cur as i64];
            if path.len() == 1 {
                Some(FoundForm { path: seq![cur], names: name_list(sub), group: sub })
            } else {
                match traverse(sub, path.drop_first()) {
                    Some(f) => Some(
                        FoundForm {
                            path: seq![cur] + f.path,
                            names: name_list(sub) + f.names,
                            group: f.group,
                        },
                    ),
                    None => None,
                }
            }
        } else {
            None
        }
    }
}

/// A path without its zeros at the end, but never empty: `[0]` stands for a
/// path of zeros only.
pub open spec fn collapsed(path: Seq<i32>) -> Seq<i32> {
    let s = strip_trailing_zeros(path);
    if s.len() == 0 {
        seq![0i32]
    } else {
        s
    }
}

/// Every path in `paths` with `v` added at its end.
pub open spec fn each_with(paths: Seq<Seq<i32>>, v: i32) -> Seq<Seq<i32>> {
    Seq::new(paths.len(), |i: int| paths[i].push(v))
}

/// The paths that a needle stands for, in the order in which they are tried:
/// an exact element goes to the end of every path; a fallback element gives
/// all paths with the element first, then all paths with 0 in its place.
pub open spec fn combinations(needle: Seq<FormMatch>) -> Seq<Seq<i32>>
    decreases needle.len(),
{
    if needle.len() == 0 {
        seq![Seq::<i32>::empty()]
    } else {
        let prev = combinations(needle.drop_last());
        match needle.last() {
            FormMatch::Exact(n) => each_with(prev, n),
            FormMatch::Fallback(n) => each_with(prev, n) + each_with(prev, 0),
        }
    }
}

/// The form of the first of `paths` that, collapsed, leads to a form.
pub open spec fn first_found(root: Group, paths: Seq<Seq<i32>>) -> Option<FoundForm>
    decreases paths.len(),
{
    if paths.len() == 0 {
        None
    } else {
        match traverse(root, collapsed(paths[0])) {
            Some(f) => Some(f),
            None => first_found(root, paths.drop_first()),
        }
    }
}

/// The form that a needle resolves to below `root`.
pub open spec fn resolve(root: Group, needle: Seq<FormMatch>) -> Option<FoundForm> {
    first_found(root, combinations(needle))
}

/// The needle that asks for exactly the elements of `path`.
pub open spec fn exact(path: Seq<i32>) -> Seq<FormMatch> {
    Seq::new(path.len(), |i: int| FormMatch::Exact(path[i]))
}

/// The texts of a list of strings.
pub open spec fn name_texts(v: Seq<String>) -> Seq<Seq<char>> {
    Seq::new(v.len(), |i: int| v[i]@)
}

/// `r` is the found form `f`.
pub open spec fn is_found(r: (Vec<i32>, Vec<String>, &Group), f: FoundForm) -> bool {
    r.0@ == f.path && name_texts(r.1@) == f.names && *r.2 == f.group
}

/// `r` is what resolution gave.
pub open spec fn matches_found(r: Option<(Vec<i32>, Vec<String>, &Group)>, f: Option<FoundForm>) -> bool {
    match (r, f) {
        (Some(x), Some(y)) => is_found(x, y),
        (None, None) => true,
        _ => false,
    }
}

/// The paths that a needle stands for.
pub fn form_match_combinations(needle: &[FormMatch]) -> (r: Vec<Vec<i32>>)
    ensures
        path_views(r@) == combinations(needle@),
{
    let mut combos: Vec<Vec<i32>> = Vec::new();
    combos.push(Vec::new());
    assert(path_views(combos@) =~= seq![Seq::<i32>::empty()]);
    assert(needle@.subrange(0, 0) =~= Seq::<FormMatch>::empty());
    let mut i: usize = 0;
    while i < needle.len()
        invariant
            i <= needle.len(),
            path_views(combos@) == combinations(needle@.subrange(0, i as int)),
        decreases needle.len() - i,
    {
        proof {
            let next = needle@.subrange(0, i as int + 1);
            assert(next.drop_last() =~= needle@.subrange(0, i as int));
            assert(next.last() == needle@[i as int]);
        }
        let ghost prev = path_views(combos@);
        match needle[i] {
            FormMatch::Exact(form_id) => {
                combos = with_each(&combos, form_id);
            },
            FormMatch::Fallback(form_id) => {
                let mut zeroed = with_each(&combos, 0);
                combos = with_each(&combos, form_id);
                let ghost first = path_views(combos@);
                let ghost second = path_views(zeroed@);
                combos.append(&mut zeroed);
                assert(path_views(combos@) =~= first + second);
            },
        }
        i += 1;
    }
    assert(needle@.subrange(0, needle@.len() as int) =~= needle@);
    combos
}

/// The sequences that a list of paths holds.
pub open spec fn path_views(v: Seq<Vec<i32>>) -> Seq<Seq<i32>> {
    Seq::new(v.len(), |i: int| v[i]@)
}

/// Copies every path and adds `v` at its end.
fn with_each(paths: &Vec<Vec<i32>>, v: i32) -> (r: Vec<Vec<i32>>)
    ensures
        path_views(r@) == each_with(path_views(paths@), v),
{
    let mut out: Vec<Vec<i32>> = Vec::new();
    let mut i: usize = 0;
    while i < paths.len()
        invariant
            i <= paths.len(),
            out@.len() == i,
            forall|j: int| 0 <= j < i ==> (#[trigger] out@[j])@ == paths@[j]@.push(v),
        decreases paths.len() - i,
    {
        let mut p = crate::util::copy_path(paths[i].as_slice());
        p.push(v);
        out.push(p);
        i += 1;
    }
    assert(path_views(out@) =~= each_with(path_views(paths@), v));
    out
}

/// Removes the zeros at the end of a path, but leaves `[0]` for a path of
/// zeros only.
pub fn collapse(path: &[i32]) -> (r: Vec<i32>)
    ensures
        r@ == collapsed(path@),
        r@.len() > 0,
{
    let mut out = crate::util::copy_path(path);
    crate::util::strip_zeros(&mut out);
    if out.len() == 0 {
        out.push(0);
        assert(out@ =~= seq![0i32]);
    }
    out
}

/// Walks down from one monster's root group.
pub struct MonsterFormCollector<'a>(pub &'a Group);

impl<'a> MonsterFormCollector<'a> {
    /// The collector of a monster, if the tracker has the monster.
    pub fn collect(tracker: &'a Tracker, monster_idx: i32) -> (r: Option<MonsterFormCollector<'a>>)
        ensures
            match r {
                Some(c) => tracker@.contains_key(monster_idx as i64) && *c.0 == tracker@[monster_idx as i64],
                None => !tracker@.contains_key(monster_idx as i64),
            },
    {
        broadcast use vstd::std_specs::hash::group_hash_axioms;
        let key: i64 = monster_idx as i64;
        match tracker.get(&key) {
            Some(g) => Some(MonsterFormCollector(g)),
            None => None,
        }
    }

    /// Whether a form path names a female form: its third element is 2.
    pub fn is_female(form: &[i32]) -> (r: bool)
        ensures
            r == (form@.len() > 2 && form@[2] == 2),
    {
        form.len() > 2 && form[2] == 2
    }

    /// Whether a form path names a shiny form: its second element is 1.
    pub fn is_shiny(form: &[i32]) -> (r: bool)
        ensures
            r == (form@.len() > 1 && form@[1] == 1),
    {
        form.len() > 1 && form[1] == 1
    }

    /// Resolves a needle: its paths are tried in order, each one collapsed,
    /// and the first that leads to a form gives the result.
    pub fn find_form(&self, needle: &[FormMatch]) -> (r: Option<(Vec<i32>, Vec<String>, &'a Group)>)
        ensures
            matches_found(r, resolve(*self.0, needle@)),
    {
        let combos = form_match_combinations(needle);
        let mut i: usize = 0;
        assert(path_views(combos@).subrange(0, combos@.len() as int) =~= path_views(combos@));
        while i < combos.len()
            invariant
                i <= combos.len(),
                path_views(combos@) == combinations(needle@),
                resolve(*self.0, needle@) == first_found(
                    *self.0,
                    path_views(combos@).subrange(i as int, combos@.len() as int),
                ),
            decreases combos.len() - i,
        {
            let possibility_collapsed = collapse(combos[i].as_slice());
            proof {
                let rest = path_views(combos@).subrange(i as int, combos@.len() as int);
                assert(rest[0] == combos@[i as int]@);
                assert(rest.drop_first() =~= path_views(combos@).subrange(
                    i as int + 1,
                    combos@.len() as int,
                ));
            }
            let r = Self::find_form_step(
                self.0,
                &possibility_collapsed,
                0,
                Vec::new(),
                Vec::new(),
            );
            proof {
                assert(possibility_collapsed@.subrange(0, possibility_collapsed@.len() as int)
                    =~= possibility_collapsed@);
            }
            if let Some(found) = r {
                proof {
                    let f = traverse(*self.0, possibility_collapsed@)->0;
                    assert(found.0@ =~= f.path);
                    assert(name_texts(found.1@) =~= f.names);
                }
                return Some(found);
            }
            i += 1;
        }
        None
    }

    /// Walks the rest of a path, from `start` on, down from `current_group`;
    /// `collected` and `collected_names` hold what was passed so far.
    pub fn find_form_step(
        current_group: &'a Group,
        needle: &Vec<i32>,
        start: usize,
        collected: Vec<i32>,
        collected_names: Vec<String>,
    ) -> (r: Option<(Vec<i32>, Vec<String>, &'a Group)>)
        requires
            start <= needle.len(),
        ensures
            match (r, traverse(*current_group, needle@.subrange(start as int, needle@.len() as int))) {
                (Some(x), Some(f)) => x.0@ == collected@ + f.path && name_texts(x.1@) == name_texts(
                    collected_names@,
                ) + f.names && *x.2 == f.group,
                (None, None) => true,
                _ => false,
            },
        decreases needle.len() - start,
    {
        broadcast use vstd::std_specs::hash::group_hash_axioms;
        let ghost rest = needle@.subrange(start as int, needle@.len() as int);
        if start == needle.len() {
            return None;
        }
        let current: i32 = needle[start];
        let last = start + 1 == needle.len();
        assert(rest[0] == current);
        assert(rest.drop_first() =~= needle@.subrange(start + 1, needle@.len() as int));
        let key: i64 = current as i64;
        let zero: i64 = 0;
        if last && current == 0 && !current_group.subgroups.contains_key(&zero) {
            assert(collected@ + Seq::<i32>::empty() =~= collected@);
            assert(name_texts(collected_names@) + Seq::<Seq<char>>::empty() =~= name_texts(
                collected_names@,
            ));
            return Some((collected, collected_names, current_group));
        }
        match current_group.subgroups.get(&key) {
            None => None,
            Some(sub_group) => {
                let mut collected = collected;
                let mut collected_names = collected_names;
                let ghost old_path = collected@;
                let ghost old_names = name_texts(collected_names@);
                collected.push(current);
                if sub_group.name.as_str().unicode_len() != 0 {
                    collected_names.push(sub_group.name.clone());
                }
                assert(collected@ =~= old_path + seq![current]);
                assert(name_texts(collected_names@) =~= old_names + name_list(*sub_group));
                if last {
                    Some((collected, collected_names, sub_group))
                } else {
                    let r = Self::find_form_step(
                        sub_group,
                        needle,
                        start + 1,
                        collected,
                        collected_names,
                    );
                    proof {
                        if r is Some {
                            let f = traverse(*sub_group, rest.drop_first())->0;
                            assert(old_path + seq![current] + f.path =~= old_path + (seq![current]
                                + f.path));
                            assert(old_names + name_list(*sub_group) + f.names =~= old_names + (
                            name_list(*sub_group) + f.names));
                        }
                    }
                    r
                }
            },
        }
    }
}

/// `k` zeros.
pub open spec fn zero_path(k: nat) -> Seq<i32> {
    Seq::new(k, |i: int| 0i32)
}

/// Zeros added at the end of a path fall away when the path is collapsed.
pub proof fn lemma_collapse_ignores_zeros(p: Seq<i32>, k: nat)
    ensures
        collapsed(p + zero_path(k)) == collapsed(p),
    decreases k,
{
    if k == 0 {
        assert(p + zero_path(0) =~= p);
    } else {
        let longer = p + zero_path(k);
        assert(longer.last() == 0);
        assert(longer.drop_last() =~= p + zero_path((k - 1) as nat));
        lemma_collapse_ignores_zeros(p, (k - 1) as nat);
    }
}

/// A needle of exact elements stands for one path: its elements.
pub proof fn lemma_exact_is_one_path(p: Seq<i32>)
    ensures
        combinations(exact(p)) == seq![p],
    decreases p.len(),
{
    if p.len() == 0 {
        assert(exact(p) =~= Seq::<FormMatch>::empty());
        assert(p =~= Seq::<i32>::empty());
    } else {
        lemma_exact_is_one_path(p.drop_last());
        assert(exact(p).drop_last() =~= exact(p.drop_last()));
        assert(exact(p).last() == FormMatch::Exact(p.last()));
        assert(each_with(seq![p.drop_last()], p.last()) =~= seq![p]) by {
            assert(p.drop_last().push(p.last()) =~= p);
        }
    }
}

/// A path of exact elements resolves to what its collapsed form leads to.
pub proof fn lemma_resolve_exact(root: Group, p: Seq<i32>)
    ensures
        resolve(root, exact(p)) == traverse(root, collapsed(p)),
{
    lemma_exact_is_one_path(p);
    let paths = seq![p];
    assert(paths.drop_first() =~= Seq::<Seq<i32>>::empty());
    assert(first_found(root, paths.drop_first()) is None);
}

/// A form path resolves to the same form with any number of zeros added at
/// its end.
pub proof fn lemma_trailing_zeros_resolve_alike(root: Group, p: Seq<i32>, k: nat)
    ensures
        resolve(root, exact(p + zero_path(k))) == resolve(root, exact(p)),
{
    lemma_resolve_exact(root, p);
    lemma_resolve_exact(root, p + zero_path(k));
    lemma_collapse_ignores_zeros(p, k);
}

} // verus!
