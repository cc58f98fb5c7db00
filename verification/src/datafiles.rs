//! The check of the animation data of all forms: a snapshot is only made of a
//! repository whose forms with sprites all have animation data that can be
//! used.

use vstd::prelude::*;
use crate::anim_data::{Anim, AnimDataXml};
use crate::error::{DataReadError, SheetError};
use crate::forms::{below, has_path, listed, reaches, wanted};
use crate::maps::keys_i64;
use crate::sprite_sheets::{collect_anim_dims, dims_of, usable_dims};
use crate::text::{append_str, chars_of, string_of};
use crate::tracker::{Group, MonsterFormCollector, Tracker};
use crate::util::copy_path;

verus! {

/// A form whose animation data is to be checked, with what reading that data
/// gave: the data, or the reason why it could not be read.
pub struct FormCheck {
    pub monster_idx: i32,
    pub path: Vec<i32>,
    pub anim_data: Result<AnimDataXml, String>,
}

/// `(monster, path)` names a form of the tracker that has sprites: its
/// sprite phase is at least 1.
pub open spec fn has_sprites(tracker: Map<i64, Group>, monster: i32, path: Seq<i32>) -> bool {
    tracker.contains_key(monster as i64) && listed(path) && (reaches(
        tracker[monster as i64],
        path,
    ) matches Some(g) && g.sprite_complete >= 1)
}

/// One of the forms is `(monster, path)`.
pub open spec fn names_form(out: Seq<(i32, Vec<i32>)>, monster: i32, path: Seq<i32>) -> bool {
    exists|i: int| 0 <= i < out.len() && (#[trigger] out[i]).0 == monster && out[i].1@ == path
}

/// Lists the forms whose animation data is to be checked: all forms with
/// sprites, of all monsters.
pub fn forms_to_check(tracker: &Tracker) -> (r: Vec<(i32, Vec<i32>)>)
    ensures
        forall|i: int| 0 <= i < r@.len() ==> has_sprites(tracker@, (#[trigger] r@[i]).0, r@[i].1@),
        forall|monster: i32, path: Seq<i32>| #[trigger]
            has_sprites(tracker@, monster, path) ==> names_form(r@, monster, path),
{
    broadcast use vstd::std_specs::hash::group_hash_axioms;
    let keys = keys_i64(tracker);
    let mut out: Vec<(i32, Vec<i32>)> = Vec::new();
    let mut idx: usize = 0;
    while idx < keys.len()
        invariant
            idx <= keys.len(),
            keys@.to_set() == tracker@.dom(),
            forall|i: int|
                0 <= i < out@.len() ==> has_sprites(tracker@, (#[trigger] out@[i]).0, out@[i].1@),
            forall|monster: i32, path: Seq<i32>| #[trigger]
                has_sprites(tracker@, monster, path) && crate::forms::key_done(
                    keys@,
                    idx as int,
                    monster as i64,
                ) ==> names_form(out@, monster, path),
        decreases keys.len() - idx,
    {
        let k: i64 = keys[idx];
        assert(keys@.to_set().contains(k));
        let ghost before = out@;
        if k >= -2147483648 && k <= 2147483647 {
            let id: i32 = k as i32;
            match MonsterFormCollector::collect(tracker, id) {
                None => {},
                Some(collector) => {
                    let forms = collector.forms();
                    let ghost root = *collector.0;
                    let mut j: usize = 0;
                    while j < forms.len()
                        invariant
                            j <= forms.len(),
                            before.len() <= out@.len(),
                            out@.subrange(0, before.len() as int) == before,
                            tracker@.contains_key(k),
                            id as i64 == k,
                            root == tracker@[k],
                            forms@[0].0@.len() == 0 && *forms@[0].2 == root,
                            forms@.len() > 0,
                            forall|i: int|
                                1 <= i < forms@.len() ==> below(
                                    root,
                                    Seq::empty(),
                                    Seq::empty(),
                                    #[trigger] forms@[i],
                                ),
                            forall|i: int|
                                0 <= i < out@.len() ==> has_sprites(
                                    tracker@,
                                    (#[trigger] out@[i]).0,
                                    out@[i].1@,
                                ),
                            forall|i: int|
                                0 <= i < j && (#[trigger] forms@[i]).2.sprite_complete >= 1
                                    ==> names_form(out@, id, forms@[i].0@),
                        decreases forms.len() - j,
                    {
                        let entry = &forms[j];
                        let ghost mid = out@;
                        proof {
                            if j > 0 {
                                assert(below(root, Seq::empty(), Seq::empty(), forms@[j as int]));
                                assert(entry.0@.subrange(0, entry.0@.len() as int) =~= entry.0@);
                            } else {
                                assert(entry.0@ =~= Seq::<i32>::empty());
                            }
                            assert(reaches(root, entry.0@) == Some(*entry.2));
                            assert(listed(entry.0@));
                        }
                        if entry.2.sprite_complete >= 1 {
                            out.push((id, copy_path(entry.0.as_slice())));
                            proof {
                                assert(out@[out@.len() - 1].1@ == entry.0@);
                            }
                        }
                        proof {
                            assert forall|i: int| 0 <= i < mid.len() implies out@[i] == mid[i] by {}
                            assert(out@.subrange(0, before.len() as int) =~= before) by {
                                assert forall|i: int| 0 <= i < before.len() implies out@[i]
                                    == before[i] by {
                                    assert(mid.subrange(0, before.len() as int)[i] == mid[i]);
                                }
                            }
                            assert forall|i: int|
                                0 <= i < j + 1 && (#[trigger] forms@[i]).2.sprite_complete
                                    >= 1 implies names_form(out@, id, forms@[i].0@) by {
                                if i < j {
                                    let w = choose|w: int|
                                        0 <= w < mid.len() && (#[trigger] mid[w]).0 == id && mid[w].1@
                                            == forms@[i].0@;
                                    assert(out@[w] == mid[w]);
                                } else {
                                    assert(out@[out@.len() - 1].0 == id);
                                }
                            }
                        }
                        j += 1;
                    }
                    proof {
                        assert forall|monster: i32, path: Seq<i32>| #[trigger]
                            has_sprites(tracker@, monster, path) && monster as i64 == k implies names_form(
                        out@, monster, path) by {
                            assert(monster == id);
                            if path.len() == 0 {
                                assert(reaches(root, path) == Some(root));
                                assert(forms@[0].2.sprite_complete >= 1);
                                assert(forms@[0].0@ =~= path);
                            } else {
                                assert(wanted(root, path));
                                assert(has_path(forms@, 1, path));
                                let i = choose|i: int|
                                    1 <= i < forms@.len() && (#[trigger] forms@[i]).0@ == path;
                                assert(below(root, Seq::empty(), Seq::empty(), forms@[i]));
                                assert(forms@[i].0@.subrange(0, forms@[i].0@.len() as int)
                                    =~= forms@[i].0@);
                                assert(reaches(root, path) == Some(*forms@[i].2));
                            }
                        }
                    }
                },
            }
        }
        proof {
            assert forall|i: int| 0 <= i < before.len() implies out@[i] == before[i] by {
                if k >= -2147483648 && k <= 2147483647 {
                    assert(out@.subrange(0, before.len() as int)[i] == out@[i]);
                }
            }
            assert forall|monster: i32, path: Seq<i32>| #[trigger]
                has_sprites(tracker@, monster, path) && crate::forms::key_done(
                    keys@,
                    idx as int + 1,
                    monster as i64,
                ) implies names_form(out@, monster, path) by {
                if crate::forms::key_done(keys@, idx as int, monster as i64) {
                    assert(names_form(before, monster, path));
                    let w = choose|w: int|
                        0 <= w < before.len() && (#[trigger] before[w]).0 == monster && before[w].1@
                            == path;
                    assert(out@[w] == before[w]);
                } else {
                    let j = choose|j: int| 0 <= j < idx + 1 && #[trigger] keys@[j] == monster as i64;
                    assert(j == idx);
                }
            }
        }
        idx += 1;
    }
    proof {
        assert forall|monster: i32, path: Seq<i32>| #[trigger]
            has_sprites(tracker@, monster, path) implies names_form(out@, monster, path) by {
            assert(keys@.to_set().contains(monster as i64));
            let j = choose|j: int| 0 <= j < keys@.len() && keys@[j] == monster as i64;
            assert(crate::forms::key_done(keys@, keys@.len() as int, monster as i64));
        }
    }
    out
}

/// Every animation with frames of its own has a frame width and a frame
/// height.
pub open spec fn dims_present(anims: Seq<Anim>) -> bool {
    forall|j: int|
        0 <= j < anims.len() && (#[trigger] anims[j]).copy_of is None ==> anims[j].frame_width is Some
            && anims[j].frame_height is Some
}

/// Animations with a usable list of frame sizes all have their sizes.
pub proof fn lemma_usable_dims_present(anims: Seq<Anim>)
    requires
        dims_of(anims) is Ok,
    ensures
        dims_present(anims),
    decreases anims.len(),
{
    if anims.len() > 0 {
        lemma_usable_dims_present(anims.drop_last());
        assert forall|j: int|
            0 <= j < anims.len() && (#[trigger] anims[j]).copy_of is None implies anims[j].frame_width is Some
            && anims[j].frame_height is Some by {
            if j < anims.len() - 1 {
                assert(anims.drop_last()[j] == anims[j]);
            } else {
                assert(usable_dims(&anims.last()) is Some);
            }
        }
    }
}

/// Why the animation data of a form cannot be used; `None` where it can.
pub open spec fn check_fault(c: &FormCheck) -> Option<Seq<char>> {
    match c.anim_data {
        Err(reason) => Some(reason@),
        Ok(xml) => match dims_of(xml.anims.anim@) {
            Ok(_) => None,
            Err(name) => Some("FrameWidth or FrameHeight missing for "@ + name),
        },
    }
}

/// The forms whose animation data cannot be used, in the order of the
/// checks, each with the reason.
pub open spec fn faults(checks: Seq<FormCheck>) -> Seq<(i32, Seq<i32>, Seq<char>)>
    decreases checks.len(),
{
    if checks.len() == 0 {
        Seq::empty()
    } else {
        let rest = faults(checks.drop_last());
        match check_fault(&checks.last()) {
            Some(reason) => rest.push((checks.last().monster_idx, checks.last().path@, reason)),
            None => rest,
        }
    }
}

/// The entries of a list of faults as plain values.
pub open spec fn fault_views(v: Seq<(i32, Vec<i32>, String)>) -> Seq<(i32, Seq<i32>, Seq<char>)> {
    Seq::new(v.len(), |i: int| (v[i].0, v[i].1@, v[i].2@))
}

/// No check has a fault.
pub proof fn lemma_no_faults(checks: Seq<FormCheck>)
    requires
        faults(checks).len() == 0,
    ensures
        forall|i: int| 0 <= i < checks.len() ==> check_fault(&#[trigger] checks[i]) is None,
    decreases checks.len(),
{
    if checks.len() > 0 {
        lemma_no_faults(checks.drop_last());
        assert forall|i: int| 0 <= i < checks.len() implies check_fault(&#[trigger] checks[i]) is None by {
            if i < checks.len() - 1 {
                assert(checks.drop_last()[i] == checks[i]);
            }
        }
    }
}

/// Checks the animation data of the forms with sprites. The check passes only
/// where the data of every form could be read and every animation with
/// frames of its own has a frame width and a frame height; else all faults
/// are reported.
pub fn try_read_in_anim_data_xml(checks: &Vec<FormCheck>) -> (r: Result<(), DataReadError>)
    ensures
        match r {
            Ok(()) => faults(checks@).len() == 0 && forall|i: int|
                0 <= i < checks@.len() ==> ((#[trigger] checks@[i]).anim_data matches Ok(xml)
                    && dims_present(xml.anims.anim@)),
            Err(e) => e matches DataReadError::AnimDataXmlErrors(list) && fault_views(list@)
                == faults(checks@) && list@.len() > 0,
        },
{
    let mut errs: Vec<(i32, Vec<i32>, String)> = Vec::new();
    let mut i: usize = 0;
    assert(checks@.subrange(0, 0) =~= Seq::<FormCheck>::empty());
    assert(fault_views(errs@) =~= Seq::<(i32, Seq<i32>, Seq<char>)>::empty());
    while i < checks.len()
        invariant
            i <= checks.len(),
            fault_views(errs@) == faults(checks@.subrange(0, i as int)),
        decreases checks.len() - i,
    {
        let c = &checks[i];
        proof {
            let next = checks@.subrange(0, i as int + 1);
            assert(next.drop_last() =~= checks@.subrange(0, i as int));
            assert(next.last() == *c);
        }
        let fault: Option<String> = match &c.anim_data {
            Err(reason) => Some(reason.clone()),
            Ok(xml) => match collect_anim_dims(xml) {
                Ok(_) => None,
                Err(SheetError::InvalidAnim(name)) => {
                    let mut text = chars_of("FrameWidth or FrameHeight missing for ");
                    append_str(&mut text, name.as_str());
                    Some(string_of(&text))
                },
                Err(_) => None,
            },
        };
        match fault {
            Some(reason) => {
                let ghost before = fault_views(errs@);
                let ghost rv = reason@;
                errs.push((c.monster_idx, copy_path(c.path.as_slice()), reason));
                assert(fault_views(errs@) =~= before.push((c.monster_idx, c.path@, rv)));
            },
            None => {},
        }
        i += 1;
    }
    assert(checks@.subrange(0, checks@.len() as int) =~= checks@);
    if errs.len() > 0 {
        Err(DataReadError::AnimDataXmlErrors(errs))
    } else {
        proof {
            lemma_no_faults(checks@);
            assert forall|k: int| 0 <= k < checks@.len() implies ((#[trigger] checks@[k]).anim_data matches Ok(
                xml,
            ) && dims_present(xml.anims.anim@)) by {
                assert(check_fault(&checks@[k]) is None);
                lemma_usable_dims_present(checks@[k].anim_data->Ok_0.anims.anim@);
            }
        }
        Ok(())
    }
}

} // verus!
