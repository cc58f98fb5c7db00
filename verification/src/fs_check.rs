//! Which of the files that the tracker lists are really there: the tracker's
//! lists are held against the names of the files that exist.

use vstd::prelude::*;
use indexmap::IndexMap;
use crate::cache::CacheBehaviour;
use crate::decimal::{decimal, push_decimal};
use crate::error::DataReadError;
use crate::local_credits_file::{
    LocalCreditRow,
    get_credits,
    history_records,
    rows_result,
    rows_until,
};
use crate::ordered::{file_entries, files_get, files_get_index, files_len, key_index};
use crate::text::{append_str, chars_of, same_text, string_of};
use crate::util::{join_monster_and_form_text, push_monster_and_form};

verus! {

/// The two categories of assets.
#[derive(Clone, Copy, Debug, PartialEq, Eq, Structural)]
pub enum AssetCategory {
    Sprite,
    Portrait,
}

impl AssetCategory {
    /// The name of the category.
    pub open spec fn label(&self) -> Seq<char> {
        match self {
            AssetCategory::Sprite => "Sprite"@,
            AssetCategory::Portrait => "Portrait"@,
        }
    }

    /// The name of the category.
    pub fn name(&self) -> (r: String)
        ensures
            r@ == self.label(),
    {
        match self {
            AssetCategory::Sprite => String::from_str("Sprite"),
            AssetCategory::Portrait => String::from_str("Portrait"),
        }
    }
}

/// A list of numbers as text: `[`, the numbers with `, ` between them, `]`.
pub open spec fn list_text(v: Seq<i32>) -> Seq<char> {
    seq!['['] + list_body(v) + seq![']']
}

/// The numbers of a list with `, ` between them.
pub open spec fn list_body(v: Seq<i32>) -> Seq<char>
    decreases v.len(),
{
    if v.len() == 0 {
        Seq::empty()
    } else if v.len() == 1 {
        decimal(v[0] as int)
    } else {
        list_body(v.drop_last()) + seq![',', ' '] + decimal(v.last() as int)
    }
}

/// Appends a list of numbers as text.
pub fn push_list(out: &mut Vec<char>, v: &[i32])
    ensures
        final(out)@ == old(out)@ + list_text(v@),
{
    out.push('[');
    let ghost start = out@;
    let mut i: usize = 0;
    assert(v@.subrange(0, 0) =~= Seq::<i32>::empty());
    assert(start + list_body(v@.subrange(0, 0)) =~= start);
    while i < v.len()
        invariant
            i <= v.len(),
            start == old(out)@.push('['),
            out@ == start + list_body(v@.subrange(0, i as int)),
        decreases v.len() - i,
    {
        proof {
            let next = v@.subrange(0, i as int + 1);
            assert(next.drop_last() =~= v@.subrange(0, i as int));
            assert(next.last() == v@[i as int]);
        }
        let ghost before = out@;
        if i > 0 {
            out.push(',');
            out.push(' ');
        }
        let ghost mid = out@;
        push_decimal(out, v[i] as i64);
        proof {
            let next = v@.subrange(0, i as int + 1);
            if i > 0 {
                assert(mid =~= before + seq![',', ' ']);
                assert(out@ =~= start + list_body(next));
            } else {
                assert(v@.subrange(0, 0).len() == 0);
                assert(out@ =~= start + list_body(next));
            }
        }
        i += 1;
    }
    assert(v@.subrange(0, v@.len() as int) =~= v@);
    out.push(']');
    assert(out@ =~= old(out)@ + list_text(v@));
}

/// The key under which something of a form is cached: a label, `|`, the
/// monster, `/`, the form path as a list.
pub open spec fn cache_key_text(label: Seq<char>, monster_idx: i32, form_path: Seq<i32>) -> Seq<char> {
    label + seq!['|'] + decimal(monster_idx as int) + seq!['/'] + list_text(form_path)
}

/// Writes the key under which something of a form is cached.
pub fn cache_key(label: &str, monster_idx: i32, form_path: &[i32]) -> (r: String)
    ensures
        r@ == cache_key_text(label@, monster_idx, form_path@),
{
    let mut out = chars_of(label);
    out.push('|');
    push_decimal(&mut out, monster_idx as i64);
    out.push('/');
    push_list(&mut out, form_path);
    assert(out@ =~= cache_key_text(label@, monster_idx, form_path@));
    string_of(&out)
}

/// A question about the files of a form: which of the listed sprites or
/// portraits exist.
pub enum FileLookup<'a> {
    Sprite(&'a Vec<String>, i32, &'a [i32]),
    Portrait(&'a Vec<String>, i32, &'a [i32]),
}

/// The place of the file of an action or emotion below the working
/// directory.
pub open spec fn lookup_path(sprite: bool, monster_idx: i32, form_path: Seq<i32>, act: Seq<char>) -> Seq<
    char,
> {
    if sprite {
        "spritecollab/sprite/"@ + join_monster_and_form_text(monster_idx, form_path, '/') + "/"@
            + act + "-Anim.png"@
    } else {
        "spritecollab/portrait/"@ + join_monster_and_form_text(monster_idx, form_path, '/') + "/"@
            + act + ".png"@
    }
}

impl<'a> FileLookup<'a> {
    /// The names that the lookup asks about.
    pub fn all(&self) -> (r: &'a Vec<String>)
        ensures
            r == (match self {
                FileLookup::Sprite(all, _, _) => *all,
                FileLookup::Portrait(all, _, _) => *all,
            }),
    {
        match self {
            FileLookup::Sprite(all, _, _) => all,
            FileLookup::Portrait(all, _, _) => all,
        }
    }

    /// The key under which the answer is cached.
    pub fn key(&self) -> (r: String)
        ensures
            r@ == (match self {
                FileLookup::Sprite(_, mon, path) => cache_key_text("spr_files"@, *mon, path@),
                FileLookup::Portrait(_, mon, path) => cache_key_text("prt_files"@, *mon, path@),
            }),
    {
        match self {
            FileLookup::Sprite(_, mon, path) => cache_key("spr_files", *mon, path),
            FileLookup::Portrait(_, mon, path) => cache_key("prt_files", *mon, path),
        }
    }

    /// The place of the file of an action or emotion below the working
    /// directory.
    pub fn path(&self, act: &str) -> (r: String)
        ensures
            r@ == (match self {
                FileLookup::Sprite(_, mon, path) => lookup_path(true, *mon, path@, act@),
                FileLookup::Portrait(_, mon, path) => lookup_path(false, *mon, path@, act@),
            }),
    {
        let mut out: Vec<char> = Vec::new();
        match self {
            FileLookup::Sprite(_, mon, path) => {
                append_str(&mut out, "spritecollab/sprite/");
                push_monster_and_form(&mut out, *mon, path, '/');
                append_str(&mut out, "/");
                append_str(&mut out, act);
                append_str(&mut out, "-Anim.png");
                assert(out@ =~= lookup_path(true, *mon, path@, act@));
            },
            FileLookup::Portrait(_, mon, path) => {
                append_str(&mut out, "spritecollab/portrait/");
                push_monster_and_form(&mut out, *mon, path, '/');
                append_str(&mut out, "/");
                append_str(&mut out, act);
                append_str(&mut out, ".png");
                assert(out@ =~= lookup_path(false, *mon, path@, act@));
            },
        }
        string_of(&out)
    }

    /// The answer for one name: the name if its file exists.
    pub fn do_single_lookup(&self, act: &str, exists: bool) -> (r: Option<String>)
        ensures
            match r {
                Some(s) => exists && s@ == act@,
                None => !exists,
            },
    {
        if exists {
            Some(String::from_str(act))
        } else {
            None
        }
    }
}

/// The texts of a list of strings.
pub open spec fn texts_of(v: Seq<String>) -> Seq<Seq<char>> {
    Seq::new(v.len(), |i: int| v[i]@)
}

/// The names of the files of a form that exist.
pub struct FileLookupCache(pub Vec<String>);

impl FileLookupCache {
    /// The first place of a name in the list.
    pub fn position(&self, needle: &str) -> (r: Option<usize>)
        ensures
            match r {
                Some(i) => i < self.0@.len() && self.0@[i as int]@ == needle@ && forall|j: int|
                    0 <= j < i ==> self.0@[j]@ != needle@,
                None => !texts_of(self.0@).contains(needle@),
            },
    {
        let mut i: usize = 0;
        while i < self.0.len()
            invariant
                i <= self.0.len(),
                forall|j: int| 0 <= j < i ==> self.0@[j]@ != needle@,
            decreases self.0.len() - i,
        {
            if same_text(self.0[i].as_str(), needle) {
                return Some(i);
            }
            i += 1;
        }
        assert forall|j: int| 0 <= j < texts_of(self.0@).len() implies texts_of(self.0@)[j]
            != needle@ by {}
        None
    }

    /// `then_return` if the file with the given name exists.
    pub fn if_has<T>(&self, needle: &str, then_return: T) -> (r: Option<T>)
        ensures
            r == (if texts_of(self.0@).contains(needle@) {
                Some(then_return)
            } else {
                None
            }),
    {
        match self.position(needle) {
            Some(i) => {
                assert(texts_of(self.0@)[i as int] == needle@);
                Some(then_return)
            },
            None => None,
        }
    }

    /// Takes the name out of the list if it is there, and gives it with
    /// `then_return`.
    pub fn take_out_if_has<T>(&mut self, needle: &str, then_return: T) -> (r: Option<(String, T)>)
        ensures
            match r {
                Some(x) => x.0@ == needle@ && x.1 == then_return && texts_of(old(self).0@).contains(
                    needle@,
                ) && exists|i: int|
                    0 <= i < old(self).0@.len() && old(self).0@[i]@ == needle@ && final(self).0@
                        == old(self).0@.remove(i),
                None => !texts_of(old(self).0@).contains(needle@) && final(self).0@ == old(self).0@,
            },
    {
        match self.position(needle) {
            Some(pos) => {
                assert(texts_of(self.0@)[pos as int] == needle@);
                let s = self.0.remove(pos);
                Some((s, then_return))
            },
            None => None,
        }
    }
}

/// The pairs of `files` whose name is among `existing`, in the order of
/// `files`; with `flipped` given, only those whose name ends in `^` or does
/// not, as asked.
pub open spec fn existing_pairs(
    files: Seq<(Seq<char>, bool)>,
    existing: Seq<Seq<char>>,
    flipped: Option<bool>,
) -> Seq<(Seq<char>, bool)>
    decreases files.len(),
{
    if files.len() == 0 {
        Seq::empty()
    } else {
        let rest = existing_pairs(files.drop_last(), existing, flipped);
        let f = files.last();
        let wanted = match flipped {
            Some(fl) => fl == (f.0.len() > 0 && f.0.last() == '^'),
            None => true,
        };
        if wanted && existing.contains(f.0) {
            rest.push(f)
        } else {
            rest
        }
    }
}

/// The texts of a list of pairs.
pub open spec fn pair_texts(v: Seq<(String, bool)>) -> Seq<(Seq<char>, bool)> {
    Seq::new(v.len(), |i: int| (v[i].0@, v[i].1))
}

fn ends_in_caret(s: &str) -> (r: bool)
    ensures
        r == (s@.len() > 0 && s@.last() == '^'),
{
    let n = s.unicode_len();
    n > 0 && s.get_char(n - 1) == '^'
}

fn list_existing(files: &IndexMap<String, bool>, existing: &FileLookupCache, flipped: Option<bool>) -> (r:
    Vec<(String, bool)>)
    ensures
        pair_texts(r@) == existing_pairs(file_entries(*files), texts_of(existing.0@), flipped),
{
    let n = files_len(files);
    let mut out: Vec<(String, bool)> = Vec::new();
    let mut i: usize = 0;
    assert(file_entries(*files).subrange(0, 0) =~= Seq::<(Seq<char>, bool)>::empty());
    assert(pair_texts(out@) =~= Seq::<(Seq<char>, bool)>::empty());
    while i < n
        invariant
            i <= n,
            n == file_entries(*files).len(),
            pair_texts(out@) == existing_pairs(
                file_entries(*files).subrange(0, i as int),
                texts_of(existing.0@),
                flipped,
            ),
        decreases n - i,
    {
        proof {
            let next = file_entries(*files).subrange(0, i as int + 1);
            assert(next.drop_last() =~= file_entries(*files).subrange(0, i as int));
            assert(next.last() == file_entries(*files)[i as int]);
        }
        let (name, locked) = files_get_index(files, i);
        let wanted = match flipped {
            Some(fl) => fl == ends_in_caret(name.as_str()),
            None => true,
        };
        if wanted {
            match existing.if_has(name.as_str(), locked) {
                Some(l) => {
                    let ghost before = pair_texts(out@);
                    let ghost nm = name@;
                    out.push((name, l));
                    assert(pair_texts(out@) =~= before.push((nm, l)));
                },
                None => {},
            }
        }
        i += 1;
    }
    assert(file_entries(*files).subrange(0, n as int) =~= file_entries(*files));
    out
}

/// The sprites of a form that the tracker lists and that exist, each with
/// its lock flag, in the tracker's order.
pub fn iter_existing_sprite_files(sprite_files: &IndexMap<String, bool>, existing: &FileLookupCache) -> (r:
    Vec<(String, bool)>)
    ensures
        pair_texts(r@) == existing_pairs(file_entries(*sprite_files), texts_of(existing.0@), None),
{
    list_existing(sprite_files, existing, None)
}

/// The lock flag of a sprite, if the tracker lists it and it exists.
pub fn get_existing_sprite_file(
    sprite_files: &IndexMap<String, bool>,
    existing: &FileLookupCache,
    action: &str,
) -> (r: Option<bool>)
    ensures
        r == (match key_index(file_entries(*sprite_files), action@) {
            Some(i) => if texts_of(existing.0@).contains(action@) {
                Some(file_entries(*sprite_files)[i].1)
            } else {
                None
            },
            None => None,
        }),
{
    match files_get(sprite_files, action) {
        Some(locked) => existing.if_has(action, locked),
        None => None,
    }
}

/// The portraits of a form that the tracker lists and that exist, each with
/// its lock flag, in the tracker's order: the flipped ones, whose names end
/// in `^`, or the others.
pub fn iter_existing_portrait_files(
    portrait_files: &IndexMap<String, bool>,
    existing: &FileLookupCache,
    flipped: bool,
) -> (r: Vec<(String, bool)>)
    ensures
        pair_texts(r@) == existing_pairs(
            file_entries(*portrait_files),
            texts_of(existing.0@),
            Some(flipped),
        ),
{
    list_existing(portrait_files, existing, Some(flipped))
}

/// The name of an emotion's portrait: with `^` at its end for the flipped
/// one.
pub open spec fn portrait_name(emotion: Seq<char>, flipped: bool) -> Seq<char> {
    if flipped {
        emotion.push('^')
    } else {
        emotion
    }
}

/// The lock flag of a portrait, if the tracker lists it and it exists.
pub fn get_existing_portrait_file(
    portrait_files: &IndexMap<String, bool>,
    existing: &FileLookupCache,
    emotion: &str,
    flipped: bool,
) -> (r: Option<bool>)
    ensures
        r == (match key_index(file_entries(*portrait_files), portrait_name(emotion@, flipped)) {
            Some(i) => if texts_of(existing.0@).contains(portrait_name(emotion@, flipped)) {
                Some(file_entries(*portrait_files)[i].1)
            } else {
                None
            },
            None => None,
        }),
{
    let mut name = chars_of(emotion);
    if flipped {
        name.push('^');
    }
    let name = string_of(&name);
    match files_get(portrait_files, name.as_str()) {
        Some(locked) => existing.if_has(name.as_str(), locked),
        None => None,
    }
}

/// The key under which the credit history of a form is cached.
pub fn credits_key(asset_type: AssetCategory, monster_idx: i32, form_path: &[i32]) -> (r: String)
    ensures
        r@ == cache_key_text("credits_"@ + asset_type.label(), monster_idx, form_path@),
{
    let mut label = chars_of("credits_");
    let name = asset_type.name();
    append_str(&mut label, name.as_str());
    let label = string_of(&label);
    cache_key(label.as_str(), monster_idx, form_path)
}

/// The place of the credit history of a form below the working directory.
pub open spec fn credits_file_path(asset_type: AssetCategory, monster_idx: i32, form_path: Seq<i32>) -> Seq<
    char,
> {
    (match asset_type {
        AssetCategory::Sprite => "spritecollab/sprite/"@,
        AssetCategory::Portrait => "spritecollab/portrait/"@,
    }) + join_monster_and_form_text(monster_idx, form_path, '/') + "/credits.txt"@
}

/// The place of the credit history of a form below the working directory.
pub fn local_credits_path(asset_type: AssetCategory, monster_idx: i32, form_path: &[i32]) -> (r: String)
    ensures
        r@ == credits_file_path(asset_type, monster_idx, form_path@),
{
    let mut out: Vec<char> = Vec::new();
    match asset_type {
        AssetCategory::Sprite => append_str(&mut out, "spritecollab/sprite/"),
        AssetCategory::Portrait => append_str(&mut out, "spritecollab/portrait/"),
    }
    push_monster_and_form(&mut out, monster_idx, form_path, '/');
    append_str(&mut out, "/credits.txt");
    assert(out@ =~= credits_file_path(asset_type, monster_idx, form_path@));
    string_of(&out)
}

/// The rows of the credit history of a form; no rows where the form has no
/// history.
pub fn get_local_credits_file(content: Option<&Vec<u8>>) -> (r: Result<Vec<LocalCreditRow>, DataReadError>)
    ensures
        match content {
            Some(c) => rows_result(
                r,
                rows_until(history_records(c@).0, history_records(c@).1, None, 0),
            ),
            None => r matches Ok(rows) && rows@.len() == 0,
        },
{
    match content {
        Some(c) => get_credits(c.as_slice()),
        None => Ok(Vec::new()),
    }
}

/// The answer of a lookup: always to be cached.
pub fn lookup_answer(found: Vec<String>) -> (r: CacheBehaviour<Vec<String>>)
    ensures
        r matches CacheBehaviour::Cache(v) && v == found,
{
    CacheBehaviour::Cache(found)
}

} // verus!
