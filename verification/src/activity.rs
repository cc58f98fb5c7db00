//! What a commit did to the assets: which portrait or sprite it added,
//! changed, moved or removed.

use vstd::prelude::*;
use crate::decimal::{parse_i32_text, read_i32};
use crate::records::{char_views, split_chars, split_on};
use crate::repo_tree::Tree;
use crate::text::{
    append_chars,
    append_str,
    chars_are,
    chars_of,
    ends_with_at,
    find_last,
    has_suffix,
    last_index_of,
    slice_chars,
    string_of,
};
use crate::util::copy_path;

verus! {

/// What happened to an asset.
#[derive(Clone, Debug)]
pub enum Action {
    Add,
    Remove,
    Update,
    MoveAndUpdate { new_monster_idx: i32, new_path_to_form: Vec<i32> },
}

impl Action {
    /// Any action that does not delete an asset has content.
    pub fn has_content(&self) -> (r: bool)
        ensures
            r == !(self is Remove),
    {
        match self {
            Action::Add => true,
            Action::Remove => false,
            Action::Update => true,
            Action::MoveAndUpdate { .. } => true,
        }
    }
}

/// A file of an asset: its name and the id of its content; no id where the
/// commit does not have the file.
#[derive(Clone, Debug)]
pub struct File {
    pub file_name: String,
    pub oid: Option<String>,
}

/// A portrait of one emotion, or the sprite of one action with its files.
#[derive(Clone, Debug)]
pub enum Asset {
    Portrait { name: String, file: File },
    Sprite {
        name: String,
        anim_sprite: File,
        shadow_sprite: File,
        offsets_sprite: File,
        anim_xml: File,
    },
}

/// What a path in the repository says of an asset.
#[derive(Clone, Debug)]
pub struct SpritePathInfo {
    pub monster_idx: i32,
    pub path_to_form: Vec<i32>,
    pub asset: Asset,
    pub base_path: String,
}

/// The text of an optional string.
pub open spec fn opt_view(s: Option<String>) -> Option<Seq<char>> {
    match s {
        Some(t) => Some(t@),
        None => None,
    }
}

/// A file as plain values.
pub struct FileModel {
    pub file_name: Seq<char>,
    pub oid: Option<Seq<char>>,
}

/// An asset as plain values; `files` holds the portrait's file, or the
/// sprite's animation, shadow, offsets and metadata files in this order.
pub struct AssetModel {
    pub portrait: bool,
    pub name: Seq<char>,
    pub files: Seq<FileModel>,
}

/// What a path says of an asset, as plain values.
pub struct InfoModel {
    pub monster_idx: i32,
    pub path_to_form: Seq<i32>,
    pub asset: AssetModel,
    pub base_path: Seq<char>,
}

impl File {
    /// The file as plain values.
    pub open spec fn model(&self) -> FileModel {
        FileModel { file_name: self.file_name@, oid: opt_view(self.oid) }
    }

    /// A copy of the file.
    pub fn duplicate(&self) -> (r: File)
        ensures
            r.model() == self.model(),
    {
        File {
            file_name: self.file_name.clone(),
            oid: match &self.oid {
                Some(id) => Some(id.clone()),
                None => None,
            },
        }
    }
}

impl Asset {
    /// The asset as plain values.
    pub open spec fn model(&self) -> AssetModel {
        match self {
            Asset::Portrait { name, file } => AssetModel {
                portrait: true,
                name: name@,
                files: seq![file.model()],
            },
            Asset::Sprite { name, anim_sprite, shadow_sprite, offsets_sprite, anim_xml } => AssetModel {
                portrait: false,
                name: name@,
                files: seq![
                    anim_sprite.model(),
                    shadow_sprite.model(),
                    offsets_sprite.model(),
                    anim_xml.model(),
                ],
            },
        }
    }

    /// The files of the asset.
    pub fn files(&self) -> (r: Vec<&File>)
        ensures
            r@.len() == self.model().files.len(),
            forall|i: int| 0 <= i < r@.len() ==> (#[trigger] r@[i]).model() == self.model().files[i],
    {
        let mut out: Vec<&File> = Vec::new();
        match self {
            Asset::Portrait { file, .. } => {
                out.push(file);
            },
            Asset::Sprite { anim_sprite, shadow_sprite, offsets_sprite, anim_xml, .. } => {
                out.push(anim_sprite);
                out.push(shadow_sprite);
                out.push(offsets_sprite);
                out.push(anim_xml);
            },
        }
        out
    }

    /// The emotion of the portrait or the action of the sprite.
    pub fn name(&self) -> (r: &str)
        ensures
            r@ == self.model().name,
    {
        match self {
            Asset::Portrait { name, .. } => name.as_str(),
            Asset::Sprite { name, .. } => name.as_str(),
        }
    }

    /// Whether the asset is a portrait.
    pub fn is_portrait(&self) -> (r: bool)
        ensures
            r == self.model().portrait,
    {
        match self {
            Asset::Portrait { .. } => true,
            Asset::Sprite { .. } => false,
        }
    }

    /// A copy of the asset.
    pub fn duplicate(&self) -> (r: Asset)
        ensures
            r.model() == self.model(),
    {
        match self {
            Asset::Portrait { name, file } => {
                let r = Asset::Portrait { name: name.clone(), file: file.duplicate() };
                assert(r.model().files =~= self.model().files);
                r
            },
            Asset::Sprite { name, anim_sprite, shadow_sprite, offsets_sprite, anim_xml } => {
                let r = Asset::Sprite {
                    name: name.clone(),
                    anim_sprite: anim_sprite.duplicate(),
                    shadow_sprite: shadow_sprite.duplicate(),
                    offsets_sprite: offsets_sprite.duplicate(),
                    anim_xml: anim_xml.duplicate(),
                };
                assert(r.model().files =~= self.model().files);
                r
            },
        }
    }
}

/// The directory of a path: what stands before the last `/`; empty for a
/// path without one.
pub open spec fn parent_of(path: Seq<char>) -> Seq<char> {
    if last_index_of(path, '/') < 0 {
        Seq::empty()
    } else {
        path.subrange(0, last_index_of(path, '/'))
    }
}

/// The path of a file in a directory.
pub open spec fn joined(dir: Seq<char>, name: Seq<char>) -> Seq<char> {
    dir + seq!['/'] + name
}

/// The numbers that a list of texts spells; `None` where one of them is no
/// 32-bit number.
pub open spec fn all_numbers(parts: Seq<Seq<char>>) -> Option<Seq<i32>>
    decreases parts.len(),
{
    if parts.len() == 0 {
        Some(Seq::empty())
    } else {
        match (all_numbers(parts.drop_last()), parse_i32_text(parts.last())) {
            (Some(v), Some(n)) => Some(v.push(n)),
            _ => None,
        }
    }
}

/// The asset that a path names, seen in a tree: `Ok(None)` for a path that is
/// no portrait and no animation sheet of a sprite; `Err` for such a path
/// whose monster or form is no number.
///
/// A portrait lies at `portrait/<monster>/<form...>/<emotion>.png`, a sprite
/// at `sprite/<monster>/<form...>/<action>-Anim.png`; the sprite's shadow,
/// offsets and metadata files lie beside it.
pub open spec fn path_info(tree: &Tree, path: Seq<char>) -> Result<Option<InfoModel>, ()> {
    let parts = split_on(path, '/');
    let n = parts.len() as int;
    let portrait = parts[0] == "portrait"@;
    let file_name = parts[n - 1];
    let suffix = if portrait {
        ".png"@
    } else {
        "-Anim.png"@
    };
    if !(portrait || parts[0] == "sprite"@) || n < 2 || !has_suffix(file_name, suffix) {
        Ok(None)
    } else if n < 3 {
        Ok(None)
    } else {
        let name = file_name.subrange(0, file_name.len() - suffix.len());
        let base = parent_of(path);
        match (parse_i32_text(parts[1]), all_numbers(parts.subrange(2, n - 1))) {
            (Some(monster_idx), Some(path_to_form)) => Ok(
                Some(
                    InfoModel {
                        monster_idx,
                        path_to_form,
                        asset: if portrait {
                            AssetModel {
                                portrait: true,
                                name,
                                files: seq![FileModel { file_name, oid: tree.oid_at(path) }],
                            }
                        } else {
                            AssetModel {
                                portrait: false,
                                name,
                                files: seq![
                                    FileModel { file_name, oid: tree.oid_at(path) },
                                    FileModel {
                                        file_name: name + "-Shadow.png"@,
                                        oid: tree.oid_at(joined(base, name + "-Shadow.png"@)),
                                    },
                                    FileModel {
                                        file_name: name + "-Offsets.png"@,
                                        oid: tree.oid_at(joined(base, name + "-Offsets.png"@)),
                                    },
                                    FileModel {
                                        file_name: "AnimData.xml"@,
                                        oid: tree.oid_at(joined(base, "AnimData.xml"@)),
                                    },
                                ],
                            }
                        },
                        base_path: base,
                    },
                ),
            ),
            _ => Err(()),
        }
    }
}

/// Reads a list of texts as 32-bit numbers.
fn read_numbers(parts: &Vec<Vec<char>>, from: usize, to: usize) -> (r: Option<Vec<i32>>)
    requires
        from <= to <= parts.len(),
    ensures
        match r {
            Some(v) => all_numbers(char_views(parts@).subrange(from as int, to as int)) == Some(v@),
            None => all_numbers(char_views(parts@).subrange(from as int, to as int)) is None,
        },
{
    let ghost texts = char_views(parts@).subrange(from as int, to as int);
    let mut out: Vec<i32> = Vec::new();
    let mut i: usize = from;
    assert(texts.subrange(0, 0) =~= Seq::<Seq<char>>::empty());
    while i < to
        invariant
            from <= i <= to <= parts.len(),
            texts == char_views(parts@).subrange(from as int, to as int),
            all_numbers(texts.subrange(0, i - from)) == Some(out@),
        decreases to - i,
    {
        proof {
            let next = texts.subrange(0, i - from + 1);
            assert(next.drop_last() =~= texts.subrange(0, i - from));
            assert(next.last() == parts@[i as int]@);
        }
        match read_i32(&parts[i]) {
            Some(n) => {
                out.push(n);
            },
            None => {
                proof {
                    lemma_numbers_fail(texts, i - from + 1);
                }
                return None;
            },
        }
        i += 1;
    }
    assert(texts.subrange(0, to - from) =~= texts);
    Some(out)
}

/// Once a beginning of the texts holds a text that is no number, the whole
/// list does.
proof fn lemma_numbers_fail(parts: Seq<Seq<char>>, n: int)
    requires
        0 <= n <= parts.len(),
        all_numbers(parts.subrange(0, n)) is None,
    ensures
        all_numbers(parts) is None,
    decreases parts.len() - n,
{
    if n < parts.len() {
        let next = parts.subrange(0, n + 1);
        assert(next.drop_last() =~= parts.subrange(0, n));
        lemma_numbers_fail(parts, n + 1);
    } else {
        assert(parts.subrange(0, n) =~= parts);
    }
}

/// The file with the given name in a directory, as the tree has it.
fn file_in(tree: &Tree, base: &Vec<char>, name: &Vec<char>) -> (r: File)
    ensures
        r.model() == (FileModel { file_name: name@, oid: tree.oid_at(joined(base@, name@)) }),
{
    let mut full: Vec<char> = Vec::new();
    append_chars(&mut full, base);
    full.push('/');
    append_chars(&mut full, name);
    assert(full@ =~= joined(base@, name@));
    let full_text = string_of(&full);
    File { file_name: string_of(name), oid: tree.oid_of(full_text.as_str()) }
}

impl SpritePathInfo {
    /// The information as plain values.
    pub open spec fn model(&self) -> InfoModel {
        InfoModel {
            monster_idx: self.monster_idx,
            path_to_form: self.path_to_form@,
            asset: self.asset.model(),
            base_path: self.base_path@,
        }
    }

    /// A copy of the information.
    pub fn duplicate(&self) -> (r: SpritePathInfo)
        ensures
            r.model() == self.model(),
    {
        SpritePathInfo {
            monster_idx: self.monster_idx,
            path_to_form: copy_path(self.path_to_form.as_slice()),
            asset: self.asset.duplicate(),
            base_path: self.base_path.clone(),
        }
    }

    /// Returns `None` if the path does not appear to be a sprite action or
    /// portrait emotion. Otherwise tries to figure out what it is and returns
    /// its info. `Err` holds the path where its monster or form is no number.
    pub fn try_from_path(tree: &Tree, path: &str) -> (r: Result<Option<SpritePathInfo>, String>)
        ensures
            match (r, path_info(tree, path@)) {
                (Ok(Some(info)), Ok(Some(m))) => info.model() == m,
                (Ok(None), Ok(None)) => true,
                (Err(p), Err(())) => p@ == path@,
                _ => false,
            },
    {
        let chars = chars_of(path);
        let parts = split_chars(&chars, '/');
        let n = parts.len();
        let portrait = chars_are(&parts[0], "portrait");
        let sprite = chars_are(&parts[0], "sprite");
        if !(portrait || sprite) || n < 2 {
            return Ok(None);
        }
        let file_name = &parts[n - 1];
        assert(file_name@.subrange(0, file_name@.len() as int) =~= file_name@);
        let fits = if portrait {
            ends_with_at(file_name, file_name.len(), ".png")
        } else {
            ends_with_at(file_name, file_name.len(), "-Anim.png")
        };
        if !fits || n < 3 {
            return Ok(None);
        }
        proof {
            reveal_strlit(".png");
            reveal_strlit("-Anim.png");
        }
        let cut: usize = if portrait { 4 } else { 9 };
        let name = slice_chars(file_name, 0, file_name.len() - cut);
        let base: Vec<char> = match find_last(&chars, '/') {
            Some(i) => slice_chars(&chars, 0, i),
            None => Vec::new(),
        };
        assert(base@ =~= parent_of(path@));
        let monster_idx = match read_i32(&parts[1]) {
            Some(v) => v,
            None => {
                return Err(string_of(&chars));
            },
        };
        let path_to_form = match read_numbers(&parts, 2, n - 1) {
            Some(v) => v,
            None => {
                return Err(string_of(&chars));
            },
        };
        let path_text = string_of(&chars);
        let first = File { file_name: string_of(file_name), oid: tree.oid_of(path_text.as_str()) };
        let asset = if portrait {
            Asset::Portrait { name: string_of(&name), file: first }
        } else {
            let mut shadow_name: Vec<char> = Vec::new();
            append_chars(&mut shadow_name, &name);
            append_str(&mut shadow_name, "-Shadow.png");
            let mut offsets_name: Vec<char> = Vec::new();
            append_chars(&mut offsets_name, &name);
            append_str(&mut offsets_name, "-Offsets.png");
            let xml_name = chars_of("AnimData.xml");
            assert(shadow_name@ =~= name@ + "-Shadow.png"@);
            assert(offsets_name@ =~= name@ + "-Offsets.png"@);
            Asset::Sprite {
                name: string_of(&name),
                anim_sprite: first,
                shadow_sprite: file_in(tree, &base, &shadow_name),
                offsets_sprite: file_in(tree, &base, &offsets_name),
                anim_xml: file_in(tree, &base, &xml_name),
            }
        };
        let info = SpritePathInfo { monster_idx, path_to_form, asset, base_path: string_of(&base) };
        proof {
            let m = path_info(tree, path@)->Ok_0->0;
            assert(info.model().asset.files =~= m.asset.files);
        }
        Ok(Some(info))
    }
}

} // verus!
