//! Requests for assets: what a request path asks for, which form serves it,
//! where its files lie and under which key the result is cached; and the
//! sprite archive of a form.

use vstd::prelude::*;
use crate::archive::{
    archive_of,
    finished,
    started,
    writer_finish,
    writer_new,
    writer_start,
    writer_write,
    written,
};
use crate::cache::CacheBehaviour;
use crate::fs_check::{cache_key, cache_key_text};
use crate::sprite_config::SpriteConfig;
use crate::text::{chars_of, same_text, string_of};
use crate::tracker::{
    FormMatch,
    FoundForm,
    Group,
    MonsterFormCollector,
    Tracker,
    exact,
    name_texts,
    resolve,
};
use crate::url::{AssetType, canonical_form, match_url, matched};
use crate::util::{
    force_non_shiny_group,
    force_shiny_group,
    join_monster_and_form_text,
    push_monster_and_form,
};

verus! {

/// A request that can be served: the kind of asset, the monster, the form
/// that serves it, the places of the form's files below the working
/// directory, and the key under which the result is cached.
pub struct AssetRequest<'a> {
    pub asset_type: AssetType<'static>,
    pub monster_idx: i32,
    pub form_path: Vec<i32>,
    pub group: &'a Group,
    pub portrait_base_path: String,
    pub sprite_base_path: String,
    pub cache_key: String,
}

/// The label of the cache key of a kind of asset that this server builds;
/// `None` for the kinds that it does not build.
pub open spec fn key_label(kind: AssetType) -> Option<Seq<char>> {
    match kind {
        AssetType::PortraitCreditsTxt => Some("portrait_credits_txt"@),
        AssetType::SpriteCreditsTxt => Some("sprite_credits_txt"@),
        AssetType::PortraitSheet => Some("portrait_sheet"@),
        AssetType::PortraitRecolorSheet => Some("portrait_recolor_sheet"@),
        AssetType::SpriteZip => Some("sprite_zip"@),
        AssetType::SpriteRecolorSheet => Some("sprite_recolor_sheet"@),
        _ => None,
    }
}

/// What a served request holds, as plain values.
pub struct RequestModel {
    pub asset_type: AssetType<'static>,
    pub monster_idx: i32,
    pub form: FoundForm,
    pub portrait_base_path: Seq<char>,
    pub sprite_base_path: Seq<char>,
    pub cache_key: Seq<char>,
}

/// The request that a path stands for: only `GET` is served; the path must
/// name an asset that this server builds; the tracker must have the monster;
/// and the form path, in the canonical form of the asset's kind, must
/// resolve to a form.
pub open spec fn request_for(is_get: bool, path: Seq<char>, tracker: Map<i64, Group>) -> Option<
    RequestModel,
> {
    if !is_get {
        None
    } else {
        match matched(path) {
            None => None,
            Some((monster_idx, form_path, kind)) => if !tracker.contains_key(monster_idx as i64) {
                None
            } else {
                match (
                    resolve(tracker[monster_idx as i64], exact(canonical_form(kind, form_path))),
                    key_label(kind),
                ) {
                    (Some(form), Some(label)) => Some(
                        RequestModel {
                            asset_type: kind,
                            monster_idx,
                            form,
                            portrait_base_path: "spritecollab/portrait/"@
                                + join_monster_and_form_text(monster_idx, form.path, '/'),
                            sprite_base_path: "spritecollab/sprite/"@ + join_monster_and_form_text(
                                monster_idx,
                                form.path,
                                '/',
                            ),
                            cache_key: cache_key_text(label, monster_idx, form.path),
                        },
                    ),
                    _ => None,
                }
            },
        }
    }
}

fn exact_needle(path: &Vec<i32>) -> (r: Vec<FormMatch>)
    ensures
        r@ == exact(path@),
{
    let mut out: Vec<FormMatch> = Vec::new();
    let mut i: usize = 0;
    while i < path.len()
        invariant
            i <= path.len(),
            out@.len() == i,
            forall|k: int| 0 <= k < i ==> out@[k] == FormMatch::Exact(path@[k]),
        decreases path.len() - i,
    {
        out.push(FormMatch::Exact(path[i]));
        i += 1;
    }
    assert(out@ =~= exact(path@));
    out
}

fn label_of(kind: AssetType) -> (r: Option<&'static str>)
    ensures
        match r {
            Some(l) => key_label(kind) == Some(l@),
            None => key_label(kind) is None,
        },
{
    match kind {
        AssetType::PortraitCreditsTxt => Some("portrait_credits_txt"),
        AssetType::SpriteCreditsTxt => Some("sprite_credits_txt"),
        AssetType::PortraitSheet => Some("portrait_sheet"),
        AssetType::PortraitRecolorSheet => Some("portrait_recolor_sheet"),
        AssetType::SpriteZip => Some("sprite_zip"),
        AssetType::SpriteRecolorSheet => Some("sprite_recolor_sheet"),
        _ => None,
    }
}

fn base_path(head: &str, monster_idx: i32, form_path: &Vec<i32>) -> (r: String)
    ensures
        r@ == head@ + join_monster_and_form_text(monster_idx, form_path@, '/'),
{
    let mut out = chars_of(head);
    push_monster_and_form(&mut out, monster_idx, form_path.as_slice(), '/');
    string_of(&out)
}

/// Finds out what a request asks for and how it is served.
pub fn match_and_process_assets_path<'a>(is_get: bool, path: &str, tracker: &'a Tracker) -> (r: Option<
    AssetRequest<'a>,
>)
    ensures
        match (r, request_for(is_get, path@, tracker@)) {
            (Some(x), Some(m)) => x.asset_type == m.asset_type && x.monster_idx == m.monster_idx
                && x.form_path@ == m.form.path && *x.group == m.form.group && x.portrait_base_path@
                == m.portrait_base_path && x.sprite_base_path@ == m.sprite_base_path && x.cache_key@
                == m.cache_key,
            (None, None) => true,
            _ => false,
        },
{
    if !is_get {
        return None;
    }
    let (monster_idx, form_path, asset_type) = match match_url(path) {
        Some(t) => t,
        None => {
            return None;
        },
    };
    let collector = match MonsterFormCollector::collect(tracker, monster_idx) {
        Some(c) => c,
        None => {
            return None;
        },
    };
    let wanted: Vec<i32> = match asset_type {
        AssetType::PortraitRecolorSheet => force_non_shiny_group(form_path.as_slice()),
        AssetType::SpriteRecolorSheet => force_shiny_group(form_path.as_slice()),
        _ => form_path,
    };
    let needle = exact_needle(&wanted);
    let (found_path, _names, group) = match collector.find_form(needle.as_slice()) {
        Some(f) => f,
        None => {
            return None;
        },
    };
    let label = match label_of(asset_type) {
        Some(l) => l,
        None => {
            return None;
        },
    };
    let portrait_base_path = base_path("spritecollab/portrait/", monster_idx, &found_path);
    let sprite_base_path = base_path("spritecollab/sprite/", monster_idx, &found_path);
    let key = cache_key(label, monster_idx, found_path.as_slice());
    Some(
        AssetRequest {
            asset_type,
            monster_idx,
            form_path: found_path,
            group,
            portrait_base_path,
            sprite_base_path,
            cache_key: key,
        },
    )
}

/// The emotions of the configuration, followed by the same emotions with `^`
/// at their end: the flipped portraits.
pub open spec fn with_flipped(emotions: Seq<Seq<char>>) -> Seq<Seq<char>> {
    emotions + Seq::new(emotions.len(), |i: int| emotions[i].push('^'))
}

/// The emotions that a portrait sheet has places for.
pub fn emotions_incl_flipped(sprite_config: &SpriteConfig) -> (r: Vec<String>)
    ensures
        name_texts(r@) == with_flipped(name_texts(sprite_config.emotions@)),
{
    let emotions = &sprite_config.emotions;
    let mut out: Vec<String> = Vec::new();
    let mut i: usize = 0;
    while i < emotions.len()
        invariant
            i <= emotions.len(),
            out@.len() == i,
            forall|k: int| 0 <= k < i ==> (#[trigger] out@[k])@ == emotions@[k]@,
        decreases emotions.len() - i,
    {
        out.push(emotions[i].clone());
        i += 1;
    }
    let mut i: usize = 0;
    while i < emotions.len()
        invariant
            i <= emotions.len(),
            out@.len() == emotions@.len() + i,
            forall|k: int| 0 <= k < emotions@.len() ==> (#[trigger] out@[k])@ == emotions@[k]@,
            forall|k: int|
                0 <= k < i ==> (#[trigger] out@[emotions@.len() + k])@ == emotions@[k]@.push('^'),
        decreases emotions.len() - i,
    {
        let mut flipped = chars_of(emotions[i].as_str());
        flipped.push('^');
        out.push(string_of(&flipped));
        i += 1;
    }
    proof {
        let want = with_flipped(name_texts(emotions@));
        assert(name_texts(out@).len() == want.len());
        assert forall|k: int| 0 <= k < want.len() implies name_texts(out@)[k] == want[k] by {
            if k >= emotions@.len() {
                let j = k - emotions@.len();
                assert(out@[emotions@.len() + j]@ == emotions@[j]@.push('^'));
            } else {
                assert(out@[k]@ == emotions@[k]@);
            }
        }
        assert(name_texts(out@) =~= want);
    }
    out
}

/// The files that go into the sprite archive of a form: all files of its
/// directory but the credit history, in the order given.
pub open spec fn archive_entries(files: Seq<(String, Vec<u8>)>) -> Seq<(Seq<char>, Seq<u8>)>
    decreases files.len(),
{
    if files.len() == 0 {
        Seq::empty()
    } else {
        let rest = archive_entries(files.drop_last());
        if files.last().0@ == "credits.txt"@ {
            rest
        } else {
            rest.push((files.last().0@, files.last().1@))
        }
    }
}

/// The names and contents of a list of files.
pub open spec fn entry_views(files: Seq<(String, Vec<u8>)>) -> Seq<(Seq<char>, Seq<u8>)> {
    Seq::new(files.len(), |i: int| (files[i].0@, files[i].1@))
}

/// Picks the files that go into the sprite archive of a form.
pub fn sprite_zip_entries(files: Vec<(String, Vec<u8>)>) -> (r: Vec<(String, Vec<u8>)>)
    ensures
        entry_views(r@) == archive_entries(files@),
{
    let ghost all = files@;
    let mut out: Vec<(String, Vec<u8>)> = Vec::new();
    let mut rest = files;
    let mut i: usize = 0;
    let n = rest.len();
    assert(all.subrange(0, 0) =~= Seq::<(String, Vec<u8>)>::empty());
    assert(entry_views(out@) =~= Seq::<(Seq<char>, Seq<u8>)>::empty());
    while rest.len() > 0
        invariant
            i + rest@.len() == all.len(),
            all.len() == n,
            rest@ == all.subrange(i as int, all.len() as int),
            entry_views(out@) == archive_entries(all.subrange(0, i as int)),
        decreases rest@.len(),
    {
        let entry = rest.remove(0);
        proof {
            let next = all.subrange(0, i as int + 1);
            assert(next.drop_last() =~= all.subrange(0, i as int));
            assert(next.last() == entry);
            assert(rest@ =~= all.subrange(i as int + 1, all.len() as int));
        }
        if !same_text(entry.0.as_str(), "credits.txt") {
            let ghost before = entry_views(out@);
            let ghost e = (entry.0@, entry.1@);
            out.push(entry);
            assert(entry_views(out@) =~= before.push(e));
        }
        i += 1;
    }
    assert(all.subrange(0, all.len() as int) =~= all);
    out
}

/// What packing gives when the files `done` have been written and the
/// files `rest` are still to come: each file is started and then written in
/// one piece, in the order given; the first error of the archive writer ends
/// the packing, and after the last file the archive is finished.
pub open spec fn packed_from(
    done: Seq<(Seq<char>, Seq<u8>)>,
    rest: Seq<(Seq<char>, Seq<u8>)>,
) -> Result<Seq<u8>, Seq<char>>
    decreases rest.len(),
{
    if rest.len() == 0 {
        finished(done)
    } else {
        let f = rest[0];
        match started(done, f.0) {
            Some(e) => Err(e),
            None => match written(done.push((f.0, Seq::empty())), f.1) {
                Some(e) => Err(e),
                None => packed_from(done.push(f), rest.drop_first()),
            },
        }
    }
}

/// What packing a list of files gives: the bytes of the archive, or the text
/// of the first error of the archive writer.
pub open spec fn packed(files: Seq<(Seq<char>, Seq<u8>)>) -> Result<Seq<u8>, Seq<char>> {
    packed_from(Seq::empty(), files)
}

/// The bytes or the error text of a result, as plain values.
pub open spec fn packed_view(r: Result<Vec<u8>, String>) -> Result<Seq<u8>, Seq<char>> {
    match r {
        Ok(b) => Ok(b@),
        Err(e) => Err(e@),
    }
}

/// Packs files into an archive, in the order given: every file is started
/// and written in one piece, and the archive is finished. The first error of
/// the archive writer, as for a name that occurs twice, ends the packing and
/// is the result.
pub fn pack_entries(entries: &Vec<(String, Vec<u8>)>) -> (r: Result<Vec<u8>, String>)
    ensures
        packed_view(r) == packed(entry_views(entries@)),
{
    let mut w = writer_new();
    let ghost all = entry_views(entries@);
    let mut i: usize = 0;
    assert(archive_of(w) =~= all.subrange(0, 0));
    assert(all.subrange(0, 0) =~= Seq::<(Seq<char>, Seq<u8>)>::empty());
    assert(all.subrange(0, all.len() as int) =~= all);
    while i < entries.len()
        invariant
            i <= entries.len(),
            all == entry_views(entries@),
            archive_of(w) == all.subrange(0, i as int),
            packed(all) == packed_from(
                all.subrange(0, i as int),
                all.subrange(i as int, all.len() as int),
            ),
        decreases entries.len() - i,
    {
        let ghost done = all.subrange(0, i as int);
        let ghost rest = all.subrange(i as int, all.len() as int);
        proof {
            assert(rest[0] == all[i as int]);
            assert(rest[0] == (entries@[i as int].0@, entries@[i as int].1@));
            assert(rest.drop_first() =~= all.subrange(i as int + 1, all.len() as int));
            assert(done.push(rest[0]) =~= all.subrange(0, i as int + 1));
        }
        match writer_start(&mut w, entries[i].0.as_str()) {
            Ok(()) => {},
            Err(e) => {
                return Err(e);
            },
        }
        match writer_write(&mut w, entries[i].1.as_slice()) {
            Ok(()) => {},
            Err(e) => {
                return Err(e);
            },
        }
        assert(archive_of(w) =~= all.subrange(0, i as int + 1));
        i += 1;
    }
    assert(all.subrange(0, entries@.len() as int) =~= all);
    writer_finish(w)
}

/// `r` is the answer for a sprite archive whose packing gave `p`: the bytes,
/// always to be cached, or the error.
pub open spec fn archive_answer(p: Result<Seq<u8>, Seq<char>>, r: Result<CacheBehaviour<Vec<u8>>, String>) -> bool {
    match p {
        Ok(b) => r matches Ok(CacheBehaviour::Cache(bytes)) && bytes@ == b,
        Err(e) => r matches Err(t) && t@ == e,
    }
}

/// The answer for a sprite archive, from what the packing gave: the bytes
/// are always to be cached; an error is handed on.
pub fn cache_archive(packed: Result<Vec<u8>, String>) -> (r: Result<CacheBehaviour<Vec<u8>>, String>)
    ensures
        archive_answer(packed_view(packed), r),
{
    match packed {
        Ok(bytes) => Ok(CacheBehaviour::Cache(bytes)),
        Err(e) => Err(e),
    }
}

/// Builds the sprite archive of a form from the files of its directory: the
/// archive of all of them but the credit history, in the order given. The
/// archive is always to be cached; where the archive writer fails, its
/// first error is the result.
pub fn make_sprite_zip(files: Vec<(String, Vec<u8>)>) -> (r: Result<CacheBehaviour<Vec<u8>>, String>)
    ensures
        archive_answer(packed(archive_entries(files@)), r),
{
    let entries = sprite_zip_entries(files);
    cache_archive(pack_entries(&entries))
}

/// The credit text of a form: the content of its credit history, or the
/// empty text where it has none. It is always to be cached.
pub fn make_credits_txt(content: Option<String>) -> (r: CacheBehaviour<String>)
    ensures
        r matches CacheBehaviour::Cache(t) && t@ == (match content {
            Some(c) => c@,
            None => Seq::<char>::empty(),
        }),
{
    CacheBehaviour::Cache(
        match content {
            Some(c) => c,
            None => String::new(),
        },
    )
}

} // verus!
