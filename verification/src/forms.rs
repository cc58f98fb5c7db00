//! All forms of a monster: every group below its root, with its path and the
//! names on the way.

use vstd::prelude::*;
use std::collections::HashMap;
use crate::tracker::{Group, MonsterFormCollector, name_list, name_texts};
use crate::util::copy_path;

verus! {

/// A form as it is listed: its path, the names on the way, the group.
pub type FormEntry<'a> = (Vec<i32>, Vec<String>, &'a Group);

/// The group that `p` leads to from `g`, every element naming a subgroup.
pub open spec fn reaches(g: Group, p: Seq<i32>) -> Option<Group>
    decreases p.len(),
{
    if p.len() == 0 {
        Some(g)
    } else if g.subgroups@.contains_key(p[0] as i64) {
        reaches(g.subgroups@[p[0] as i64], p.drop_first())
    } else {
        None
    }
}

/// The names of the groups that `p` passes below `g`, for those that have
/// one.
pub open spec fn names_along(g: Group, p: Seq<i32>) -> Seq<Seq<char>>
    decreases p.len(),
{
    if p.len() == 0 || !g.subgroups@.contains_key(p[0] as i64) {
        Seq::empty()
    } else {
        name_list(g.subgroups@[p[0] as i64]) + names_along(
            g.subgroups@[p[0] as i64],
            p.drop_first(),
        )
    }
}

/// A path is listed unless it ends in 0: a subgroup 0 stands for its parent.
pub open spec fn listed(p: Seq<i32>) -> bool {
    p.len() == 0 || p.last() != 0
}

/// `q` leads to a form below `g` that is listed.
pub open spec fn wanted(g: Group, q: Seq<i32>) -> bool {
    q.len() > 0 && listed(q) && reaches(g, q) is Some
}

/// `e` is a listed form below `g`, the group `g` lying at `prefix` with the
/// names `prefix_names`.
pub open spec fn below(g: Group, prefix: Seq<i32>, prefix_names: Seq<Seq<char>>, e: FormEntry) -> bool {
    let q = e.0@.subrange(prefix.len() as int, e.0@.len() as int);
    &&& e.0@.len() > prefix.len()
    &&& e.0@.subrange(0, prefix.len() as int) == prefix
    &&& listed(q)
    &&& reaches(g, q) == Some(*e.2)
    &&& name_texts(e.1@) == prefix_names + names_along(g, q)
}

/// The path of the entry goes on after `n` elements, with `id`.
pub open spec fn steps_to(e: FormEntry, n: int, id: i32) -> bool {
    e.0@.len() > n && e.0@[n] == id
}

/// No two of the entries from `from` on have the same path.
pub open spec fn distinct_paths(out: Seq<FormEntry>, from: int) -> bool {
    forall|i: int, j: int|
        from <= i < j < out.len() ==> (#[trigger] out[i]).0@ != (#[trigger] out[j]).0@
}

/// One of the entries from `from` on has the path `p`.
pub open spec fn has_path(out: Seq<FormEntry>, from: int, p: Seq<i32>) -> bool {
    exists|i: int| from <= i < out.len() && (#[trigger] out[i]).0@ == p
}

/// The key `k` is among the first `n` of `keys`.
pub open spec fn key_done(keys: Seq<i64>, n: int, k: i64) -> bool {
    exists|j: int| 0 <= j < n && #[trigger] keys[j] == k
}

/// The ids of a map of groups, each once, in no particular order.
pub fn map_keys(m: &HashMap<i64, Group>) -> (v: Vec<i64>)
    ensures
        v@.no_duplicates(),
        v@.to_set() == m@.dom(),
{
    crate::maps::keys_i64(m)
}

/// The copy of a list of names.
pub fn copy_names(names: &Vec<String>) -> (r: Vec<String>)
    ensures
        name_texts(r@) == name_texts(names@),
{
    let mut out: Vec<String> = Vec::new();
    let mut i: usize = 0;
    while i < names.len()
        invariant
            i <= names.len(),
            out@.len() == i,
            forall|j: int| 0 <= j < i ==> (#[trigger] out@[j])@ == names@[j]@,
        decreases names.len() - i,
    {
        out.push(names[i].clone());
        i += 1;
    }
    assert(name_texts(out@) =~= name_texts(names@));
    out
}

/// Adds every listed form below `g` to `out`.
fn collect_below<'a>(
    g: &'a Group,
    path: &Vec<i32>,
    names: &Vec<String>,
    out: &mut Vec<FormEntry<'a>>,
)
    ensures
        old(out)@.len() <= final(out)@.len(),
        final(out)@.subrange(0, old(out)@.len() as int) == old(out)@,
        forall|i: int|
            old(out)@.len() <= i < final(out)@.len() ==> below(
                *g,
                path@,
                name_texts(names@),
                #[trigger] final(out)@[i],
            ),
        forall|q: Seq<i32>| #[trigger]
            wanted(*g, q) ==> has_path(final(out)@, old(out)@.len() as int, path@ + q),
        distinct_paths(final(out)@, old(out)@.len() as int),
    decreases g,
{
    broadcast use vstd::std_specs::hash::group_hash_axioms;
    let keys = map_keys(&g.subgroups);
    let ghost start = out@.len() as int;
    let mut idx: usize = 0;
    assert(out@.subrange(0, start) =~= old(out)@);
    while idx < keys.len()
        invariant
            idx <= keys.len(),
            keys@.to_set() == g.subgroups@.dom(),
            start == old(out)@.len(),
            start <= out@.len(),
            out@.subrange(0, start) == old(out)@,
            forall|i: int|
                start <= i < out@.len() ==> below(
                    *g,
                    path@,
                    name_texts(names@),
                    #[trigger] out@[i],
                ),
            forall|q: Seq<i32>| #[trigger]
                wanted(*g, q) && key_done(keys@, idx as int, q[0] as i64) ==> has_path(
                    out@,
                    start,
                    path@ + q,
                ),
            keys@.no_duplicates(),
            distinct_paths(out@, start),
            forall|i: int|
                start <= i < out@.len() ==> key_done(
                    keys@,
                    idx as int,
                    (#[trigger] out@[i]).0@[path@.len() as int] as i64,
                ),
        decreases keys.len() - idx,
    {
        let k: i64 = keys[idx];
        let ghost before = out@;
        assert(keys@.to_set().contains(k));
        if k >= -2147483648 && k <= 2147483647 {
            match g.subgroups.get(&k) {
                None => {},
                Some(sub) => {
                    let id: i32 = k as i32;
                    let mut subpath = copy_path(path.as_slice());
                    subpath.push(id);
                    let mut subnames = copy_names(names);
                    let ghost names_before = name_texts(subnames@);
                    if sub.name.as_str().unicode_len() != 0 {
                        subnames.push(sub.name.clone());
                    }
                    assert(name_texts(subnames@) =~= name_texts(names@) + name_list(*sub));
                    let ghost one = seq![id];
                    assert(one.drop_first() =~= Seq::<i32>::empty());
                    assert(one[0] as i64 == k);
                    assert(reaches(*sub, Seq::<i32>::empty()) == Some(*sub));
                    assert(names_along(*sub, Seq::<i32>::empty()) =~= Seq::<Seq<char>>::empty());
                    assert(reaches(*g, one) == Some(*sub));
                    assert(names_along(*g, one) =~= name_list(*sub));
                    if id != 0 {
                        let entry_path = copy_path(subpath.as_slice());
                        let entry_names = copy_names(&subnames);
                        out.push((entry_path, entry_names, sub));
                        proof {
                            let e = out@[out@.len() - 1];
                            assert(e.0@.subrange(path@.len() as int, e.0@.len() as int) =~= one);
                            assert(e.0@.subrange(0, path@.len() as int) =~= path@);
                            assert(below(*g, path@, name_texts(names@), e));
                        }
                    }
                    let ghost mid = out@;
                    collect_below(sub, &subpath, &subnames, out);
                    proof {
                        assert forall|i: int| start <= i < out@.len() implies below(
                            *g,
                            path@,
                            name_texts(names@),
                            #[trigger] out@[i],
                        ) by {
                            if i < mid.len() {
                                assert(out@.subrange(0, mid.len() as int)[i] == out@[i]);
                                if i < before.len() {
                                    assert(mid[i] == before[i]);
                                }
                            } else {
                                let e = out@[i];
                                let q2 = e.0@.subrange(subpath@.len() as int, e.0@.len() as int);
                                let q = e.0@.subrange(path@.len() as int, e.0@.len() as int);
                                assert(below(*sub, subpath@, name_texts(subnames@), e));
                                assert(e.0@.subrange(0, subpath@.len() as int) == subpath@);
                                assert(q[0] == e.0@[path@.len() as int]);
                                assert(e.0@.subrange(0, subpath@.len() as int)[path@.len() as int]
                                    == id);
                                assert(q.drop_first() =~= q2);
                                assert(q.last() == q2.last());
                                assert(e.0@.subrange(0, path@.len() as int) =~= path@) by {
                                    assert forall|t: int| 0 <= t < path@.len() implies e.0@[t]
                                        == path@[t] by {
                                        assert(e.0@.subrange(0, subpath@.len() as int)[t]
                                            == subpath@[t]);
                                    }
                                }
                                assert(name_texts(names@) + name_list(*sub) + names_along(*sub, q2)
                                    =~= name_texts(names@) + (name_list(*sub) + names_along(
                                    *sub,
                                    q2,
                                )));
                            }
                        }
                        assert(out@.subrange(0, start) =~= old(out)@) by {
                            assert forall|t: int| 0 <= t < start implies out@[t] == old(out)@[t] by {
                                assert(out@.subrange(0, mid.len() as int)[t] == out@[t]);
                                assert(before.subrange(0, start)[t] == before[t]);
                            }
                        }
                        assert forall|i: int| before.len() <= i < out@.len() implies steps_to(
                            #[trigger] out@[i],
                            path@.len() as int,
                            id,
                        ) by {
                            let e = out@[i];
                            if i < mid.len() {
                                assert(out@.subrange(0, mid.len() as int)[i] == out@[i]);
                                assert(e.0@ == subpath@);
                            } else {
                                assert(below(*sub, subpath@, name_texts(subnames@), e));
                                assert(e.0@.subrange(0, subpath@.len() as int)[path@.len() as int]
                                    == id);
                            }
                        }
                        assert forall|i: int, j: int|
                            before.len() <= i < j < out@.len() implies (#[trigger] out@[i]).0@ != (
                        #[trigger] out@[j]).0@ by {
                            if i < mid.len() {
                                assert(out@.subrange(0, mid.len() as int)[i] == out@[i]);
                                assert(out@[i].0@.len() == subpath@.len());
                                assert(below(*sub, subpath@, name_texts(subnames@), out@[j]));
                            }
                        }
                    }
                },
            }
        }
        proof {
            assert forall|i: int| 0 <= i < before.len() implies out@[i] == before[i] by {
                if k >= -2147483648 && k <= 2147483647 && g.subgroups@.contains_key(k) {
                    let midlen: int = if k as i32 != 0 {
                        before.len() as int + 1
                    } else {
                        before.len() as int
                    };
                    assert(out@.subrange(0, midlen)[i] == out@[i]);
                }
            }
            assert forall|i: int| start <= i < out@.len() implies key_done(
                keys@,
                idx as int + 1,
                (#[trigger] out@[i]).0@[path@.len() as int] as i64,
            ) by {
                if i < before.len() {
                    let j = choose|j: int|
                        0 <= j < idx && #[trigger] keys@[j] == before[i].0@[path@.len() as int] as i64;
                    assert(keys@[j] == out@[i].0@[path@.len() as int] as i64);
                } else {
                    assert(steps_to(out@[i], path@.len() as int, k as i32));
                    assert(keys@[idx as int] == k);
                }
            }
            assert forall|i: int, j: int| start <= i < j < out@.len() implies (#[trigger] out@[i]).0@
                != (#[trigger] out@[j]).0@ by {
                if j < before.len() {
                    assert(before[i].0@ != before[j].0@);
                } else if i < before.len() {
                    let t = choose|t: int|
                        0 <= t < idx && #[trigger] keys@[t] == before[i].0@[path@.len() as int] as i64;
                    assert(steps_to(out@[j], path@.len() as int, k as i32));
                    assert(keys@[t] != keys@[idx as int]);
                }
            }
            assert forall|q: Seq<i32>| #[trigger]
                wanted(*g, q) && key_done(keys@, idx as int + 1, q[0] as i64) implies has_path(
                out@,
                start,
                path@ + q,
            ) by {
                if key_done(keys@, idx as int, q[0] as i64) {
                    assert(has_path(before, start, path@ + q));
                    let i = choose|i: int| start <= i < before.len() && (#[trigger] before[i]).0@
                        == path@ + q;
                    assert(out@[i].0@ == path@ + q);
                } else {
                    let j = choose|j: int| 0 <= j < idx + 1 && #[trigger] keys@[j] == q[0] as i64;
                    assert(j == idx);
                    assert(q[0] as i64 == k);
                    let sub = g.subgroups@[k];
                    let id = k as i32;
                    assert(q[0] == id);
                    if q.len() == 1 {
                        assert(q =~= seq![id]);
                        assert(id != 0);
                        assert(out@.subrange(0, before.len() as int + 1)[before.len() as int]
                            == out@[before.len() as int]);
                        assert(out@[before.len() as int].0@ =~= path@ + q);
                    } else {
                        let q2 = q.drop_first();
                        assert(q2.last() == q.last());
                        assert(wanted(sub, q2));
                        let midlen: int = if id != 0 {
                            before.len() as int + 1
                        } else {
                            before.len() as int
                        };
                        assert(has_path(out@, midlen, path@.push(id) + q2));
                        assert(path@.push(id) + q2 =~= path@ + q);
                        let i = choose|i: int| midlen <= i < out@.len() && (#[trigger] out@[i]).0@
                            == path@.push(id) + q2;
                        assert(out@[i].0@ == path@ + q);
                    }
                }
            }
        }
        idx += 1;
    }
    proof {
        assert forall|q: Seq<i32>| #[trigger] wanted(*g, q) implies has_path(
            out@,
            start,
            path@ + q,
        ) by {
            assert(g.subgroups@.dom().contains(q[0] as i64));
            assert(keys@.to_set().contains(q[0] as i64));
            let j = choose|j: int| 0 <= j < keys@.len() && keys@[j] == q[0] as i64;
            assert(key_done(keys@, keys@.len() as int, q[0] as i64));
        }
    }
}

impl<'a> MonsterFormCollector<'a> {
    /// Lists the forms of the monster: first the root, with an empty path and
    /// its own name; then every group below it whose path does not end in 0,
    /// each once, with its path and the names of the named groups on the
    /// way. Groups with an id outside the 32-bit range have no path and are
    /// left out.
    pub fn forms(&self) -> (r: Vec<FormEntry<'a>>)
        ensures
            r@.len() > 0,
            r@[0].0@.len() == 0 && name_texts(r@[0].1@) == seq![self.0.name@] && *r@[0].2
                == *self.0,
            forall|i: int|
                1 <= i < r@.len() ==> below(*self.0, Seq::empty(), Seq::empty(), #[trigger] r@[i]),
            forall|q: Seq<i32>| #[trigger] wanted(*self.0, q) ==> has_path(r@, 1, q),
            distinct_paths(r@, 0),
    {
        let mut out: Vec<FormEntry<'a>> = Vec::new();
        let mut root_names: Vec<String> = Vec::new();
        root_names.push(self.0.name.clone());
        assert(name_texts(root_names@) =~= seq![self.0.name@]);
        out.push((Vec::new(), root_names, self.0));
        let path: Vec<i32> = Vec::new();
        let names: Vec<String> = Vec::new();
        let ghost first = out@;
        collect_below(self.0, &path, &names, &mut out);
        proof {
            assert(out@.subrange(0, 1)[0] == out@[0]);
            assert(name_texts(names@) =~= Seq::<Seq<char>>::empty());
            assert forall|q: Seq<i32>| #[trigger] wanted(*self.0, q) implies has_path(out@, 1, q) by {
                assert(path@ + q =~= q);
            }
            assert forall|i: int, j: int| 0 <= i < j < out@.len() implies (#[trigger] out@[i]).0@ != (
            #[trigger] out@[j]).0@ by {
                assert(below(*self.0, path@, name_texts(names@), out@[j]));
            }
        }
        out
    }
}

} // verus!
