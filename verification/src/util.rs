//! Form paths as text, and the canonical form paths of the recolor routes.

use vstd::prelude::*;
use crate::decimal::{padded, push_padded};
use crate::text::string_of;

verus! {

/// Every element of `path` written with four digits, each one led by
/// `character`.
pub open spec fn led_form(path: Seq<i32>, character: char) -> Seq<char>
    decreases path.len(),
{
    if path.len() == 0 {
        Seq::empty()
    } else {
        led_form(path.drop_last(), character) + seq![character] + padded(path.last() as int, 4)
    }
}

/// The elements of `path`, four digits each, separated by `character`; the
/// separator also leads the text when asked for and `path` is not empty.
pub open spec fn join_form_text(path: Seq<i32>, with_leading_slash: bool, character: char) -> Seq<
    char,
> {
    if with_leading_slash || path.len() == 0 {
        led_form(path, character)
    } else {
        led_form(path, character).drop_first()
    }
}

/// The monster id with four digits, followed by the led form path.
pub open spec fn join_monster_and_form_text(monster_idx: i32, path: Seq<i32>, character: char) -> Seq<
    char,
> {
    padded(monster_idx as int, 4) + led_form(path, character)
}

/// `path` without its zeros at the end.
pub open spec fn strip_trailing_zeros(path: Seq<i32>) -> Seq<i32>
    decreases path.len(),
{
    if path.len() > 0 && path.last() == 0 {
        strip_trailing_zeros(path.drop_last())
    } else {
        path
    }
}

/// The non-shiny variant of `path`: the shiny index set to 0, zeros at the
/// end removed.
pub open spec fn non_shiny_form(path: Seq<i32>) -> Seq<i32> {
    strip_trailing_zeros(if path.len() >= 2 { path.update(1, 0) } else { path })
}

/// The shiny variant of `path`: the shiny index set to 1, the path filled up
/// to two elements where it is shorter.
pub open spec fn shiny_form(path: Seq<i32>) -> Seq<i32> {
    if path.len() >= 2 {
        path.update(1, 1)
    } else if path.len() == 1 {
        path.push(1)
    } else {
        seq![0i32, 1i32]
    }
}

/// Appends the led form of `form_path` to `out`.
pub fn push_led_form(out: &mut Vec<char>, form_path: &[i32], character: char)
    ensures
        final(out)@ == old(out)@ + led_form(form_path@, character),
{
    let mut i: usize = 0;
    while i < form_path.len()
        invariant
            i <= form_path.len(),
            out@ == old(out)@ + led_form(form_path@.subrange(0, i as int), character),
        decreases form_path.len() - i,
    {
        let ghost before = out@;
        out.push(character);
        push_padded(out, form_path[i] as i64, 4);
        proof {
            let next = form_path@.subrange(0, i as int + 1);
            assert(next.drop_last() =~= form_path@.subrange(0, i as int));
            assert(next.last() == form_path@[i as int]);
            assert(out@ =~= old(out)@ + led_form(next, character));
        }
        i += 1;
    }
    assert(form_path@.subrange(0, form_path.len() as int) =~= form_path@);
}

/// Writes a form path as text: four digits per element, `character` between
/// them and, if asked for, in front.
pub fn join_form(form_path: &[i32], with_leading_slash: bool, character: char) -> (r: String)
    ensures
        r@ == join_form_text(form_path@, with_leading_slash, character),
{
    let mut out: Vec<char> = Vec::new();
    push_led_form(&mut out, form_path, character);
    assert(out@ =~= led_form(form_path@, character));
    if !with_leading_slash && form_path.len() > 0 {
        proof {
            assert(led_form(form_path@, character).len() > 0);
        }
        out.remove(0);
        assert(out@ =~= led_form(form_path@, character).drop_first());
    }
    string_of(&out)
}

/// Writes the monster id and the form path as one text.
pub fn join_monster_and_form(monster_idx: i32, form_path: &[i32], character: char) -> (r: String)
    ensures
        r@ == join_monster_and_form_text(monster_idx, form_path@, character),
{
    let mut out: Vec<char> = Vec::new();
    push_monster_and_form(&mut out, monster_idx, form_path, character);
    assert(out@ =~= join_monster_and_form_text(monster_idx, form_path@, character));
    string_of(&out)
}

/// Appends the monster id and the form path to `out`.
pub fn push_monster_and_form(
    out: &mut Vec<char>,
    monster_idx: i32,
    form_path: &[i32],
    character: char,
)
    ensures
        final(out)@ == old(out)@ + join_monster_and_form_text(monster_idx, form_path@, character),
{
    push_padded(out, monster_idx as i64, 4);
    push_led_form(out, form_path, character);
    assert(final(out)@ =~= old(out)@ + join_monster_and_form_text(
        monster_idx,
        form_path@,
        character,
    ));
}

/// The copy of a form path.
pub fn copy_path(path: &[i32]) -> (v: Vec<i32>)
    ensures
        v@ == path@,
{
    let mut out: Vec<i32> = Vec::new();
    let mut i: usize = 0;
    while i < path.len()
        invariant
            i <= path.len(),
            out@ == path@.subrange(0, i as int),
        decreases path.len() - i,
    {
        out.push(path[i]);
        i += 1;
    }
    assert(path@.subrange(0, path.len() as int) =~= path@);
    out
}

/// Removes the zeros at the end of `path`.
pub fn strip_zeros(path: &mut Vec<i32>)
    ensures
        final(path)@ == strip_trailing_zeros(old(path)@),
{
    while path.len() > 0 && path[path.len() - 1] == 0
        invariant
            strip_trailing_zeros(path@) == strip_trailing_zeros(old(path)@),
        decreases path.len(),
    {
        let ghost before = path@;
        path.pop();
        assert(path@ =~= before.drop_last());
    }
}

/// The form path under which a recolor route renders the non-shiny variant.
pub fn force_non_shiny_group(group: &[i32]) -> (r: Vec<i32>)
    ensures
        r@ == non_shiny_form(group@),
{
    let mut collected = copy_path(group);
    if collected.len() >= 2 {
        collected[1] = 0;
    }
    strip_zeros(&mut collected);
    collected
}

/// The form path under which a recolor route renders the shiny variant.
pub fn force_shiny_group(group: &[i32]) -> (r: Vec<i32>)
    ensures
        r@ == shiny_form(group@),
{
    let mut collected = copy_path(group);
    if collected.len() >= 2 {
        collected[1] = 1;
    } else if collected.len() == 1 {
        collected.push(1);
    } else {
        collected.push(0);
        collected.push(1);
        assert(collected@ =~= seq![0i32, 1i32]);
    }
    collected
}

} // verus!
