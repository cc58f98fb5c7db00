//! The addresses of assets: how the address of an asset is written, and
//! which asset a request path asks for.

use vstd::prelude::*;
use crate::activity::all_numbers;
use crate::decimal::read_i32;
use crate::records::{char_views, split_chars, split_on};
use crate::text::{
    append_chars,
    append_str,
    chars_of,
    ends_with_at,
    has_prefix,
    has_suffix,
    same_text,
    slice_chars,
    starts_with_at,
    string_of,
};
use crate::util::{
    force_non_shiny_group,
    force_shiny_group,
    join_monster_and_form_text,
    non_shiny_form,
    push_monster_and_form,
    shiny_form,
};

verus! {

/// The kinds of assets that have an address.
#[derive(Clone, Copy, Debug)]
pub enum AssetType<'a> {
    PortraitCreditsTxt,
    SpriteCreditsTxt,
    PortraitSheet,
    PortraitRecolorSheet,
    Portrait(&'a str),
    PortraitFlipped(&'a str),
    SpriteAnimDataXml,
    SpriteZip,
    SpriteRecolorSheet,
    SpriteAnim(&'a str),
    SpriteOffsets(&'a str),
    SpriteShadows(&'a str),
}

/// What `char::to_uppercase` gives for a character: one or more characters.
pub uninterp spec fn uppercased(c: char) -> Seq<char>;

/// `char::to_uppercase` of the standard library. The contract only names the
/// result.
#[verifier::external_body]
fn upper_chars(c: char) -> (r: Vec<char>)
    ensures
        r@ == uppercased(c),
{
    c.to_uppercase().collect()
}

/// A name with its first character in upper case; `teary-eyed` has both
/// words so.
pub open spec fn up_text(s: Seq<char>) -> Seq<char> {
    if s == "teary-eyed"@ {
        "Teary-Eyed"@
    } else if s.len() == 0 {
        Seq::empty()
    } else {
        uppercased(s[0]) + s.drop_first()
    }
}

/// Writes a name with its first character in upper case.
pub fn up(s: &str) -> (r: String)
    ensures
        r@ == up_text(s@),
{
    if same_text(s, "teary-eyed") {
        return String::from_str("Teary-Eyed");
    }
    let chars = chars_of(s);
    if chars.len() == 0 {
        return String::new();
    }
    let mut out = upper_chars(chars[0]);
    let rest = slice_chars(&chars, 1, chars.len());
    append_chars(&mut out, &rest);
    assert(out@ =~= uppercased(s@[0]) + s@.drop_first());
    string_of(&out)
}

/// The form path under which an asset of the given kind is addressed: the
/// non-shiny variant for the portrait recolor sheet, the shiny variant for
/// the sprite recolor sheet, the path itself for all others.
pub open spec fn canonical_form(kind: AssetType, path: Seq<i32>) -> Seq<i32> {
    match kind {
        AssetType::PortraitRecolorSheet => non_shiny_form(path),
        AssetType::SpriteRecolorSheet => shiny_form(path),
        _ => path,
    }
}

/// The address of an asset. Sheets, archives and credit texts are served by
/// this server; single images and the animation data by the assets server.
pub open spec fn url_text(
    kind: AssetType,
    this_srv_url: Seq<char>,
    assets_srv_url: Seq<char>,
    monster_id: i32,
    path: Seq<i32>,
) -> Seq<char> {
    let dashed = join_monster_and_form_text(monster_id, canonical_form(kind, path), '-');
    let slashed = join_monster_and_form_text(monster_id, path, '/');
    match kind {
        AssetType::PortraitCreditsTxt => this_srv_url + "/assets/portrait-credits-"@ + dashed
            + ".txt"@,
        AssetType::SpriteCreditsTxt => this_srv_url + "/assets/sprite-credits-"@ + dashed
            + ".txt"@,
        AssetType::PortraitSheet => this_srv_url + "/assets/portrait-"@ + dashed + ".png"@,
        AssetType::PortraitRecolorSheet => this_srv_url + "/assets/portrait_recolor-"@ + dashed
            + ".png"@,
        AssetType::Portrait(emotion) => assets_srv_url + "/portrait/"@ + slashed + "/"@ + up_text(
            emotion@,
        ) + ".png"@,
        AssetType::PortraitFlipped(emotion) => assets_srv_url + "/portrait/"@ + slashed + "/"@
            + up_text(emotion@) + ".png"@,
        AssetType::SpriteAnimDataXml => assets_srv_url + "/sprite/"@ + slashed + "/AnimData.xml"@,
        AssetType::SpriteZip => this_srv_url + "/assets/"@ + slashed + "/sprites.zip"@,
        AssetType::SpriteRecolorSheet => this_srv_url + "/assets/sprite_recolor-"@ + dashed
            + ".png"@,
        AssetType::SpriteAnim(action) => assets_srv_url + "/sprite/"@ + slashed + "/"@ + up_text(
            action@,
        ) + "-Anim.png"@,
        AssetType::SpriteOffsets(action) => assets_srv_url + "/sprite/"@ + slashed + "/"@ + up_text(
            action@,
        ) + "-Offsets.png"@,
        AssetType::SpriteShadows(action) => assets_srv_url + "/sprite/"@ + slashed + "/"@ + up_text(
            action@,
        ) + "-Shadow.png"@,
    }
}

fn build(base: &str, head: &str, monster_id: i32, path: &[i32], sep: char, name: Option<&str>, tail: &str) -> (r:
    String)
    ensures
        r@ == base@ + head@ + join_monster_and_form_text(monster_id, path@, sep) + (match name {
            Some(n) => "/"@ + up_text(n@),
            None => Seq::<char>::empty(),
        }) + tail@,
{
    let mut out: Vec<char> = Vec::new();
    append_str(&mut out, base);
    append_str(&mut out, head);
    push_monster_and_form(&mut out, monster_id, path, sep);
    let ghost mid = out@;
    match name {
        Some(n) => {
            let upped = up(n);
            append_str(&mut out, "/");
            append_str(&mut out, upped.as_str());
            assert(out@ =~= mid + ("/"@ + up_text(n@)));
        },
        None => {
            assert(out@ =~= mid + Seq::<char>::empty());
        },
    }
    append_str(&mut out, tail);
    string_of(&out)
}

/// Writes the address of an asset.
pub fn get_url(
    asset_type: AssetType,
    this_srv_url: &str,
    assets_srv_url: &str,
    monster_id: i32,
    path_to_form: &[i32],
) -> (r: String)
    ensures
        r@ == url_text(asset_type, this_srv_url@, assets_srv_url@, monster_id, path_to_form@),
{
    match asset_type {
        AssetType::PortraitCreditsTxt => {
            let r = build(
                this_srv_url,
                "/assets/portrait-credits-",
                monster_id,
                path_to_form,
                '-',
                None,
                ".txt",
            );
            assert(r@ =~= url_text(
                asset_type,
                this_srv_url@,
                assets_srv_url@,
                monster_id,
                path_to_form@,
            ));
            r
        },
        AssetType::SpriteCreditsTxt => {
            let r = build(
                this_srv_url,
                "/assets/sprite-credits-",
                monster_id,
                path_to_form,
                '-',
                None,
                ".txt",
            );
            assert(r@ =~= url_text(
                asset_type,
                this_srv_url@,
                assets_srv_url@,
                monster_id,
                path_to_form@,
            ));
            r
        },
        AssetType::PortraitSheet => {
            let r = build(
                this_srv_url,
                "/assets/portrait-",
                monster_id,
                path_to_form,
                '-',
                None,
                ".png",
            );
            assert(r@ =~= url_text(
                asset_type,
                this_srv_url@,
                assets_srv_url@,
                monster_id,
                path_to_form@,
            ));
            r
        },
        AssetType::PortraitRecolorSheet => {
            let forced = force_non_shiny_group(path_to_form);
            let r = build(
                this_srv_url,
                "/assets/portrait_recolor-",
                monster_id,
                forced.as_slice(),
                '-',
                None,
                ".png",
            );
            assert(r@ =~= url_text(
                asset_type,
                this_srv_url@,
                assets_srv_url@,
                monster_id,
                path_to_form@,
            ));
            r
        },
        AssetType::Portrait(emotion) => {
            let r = build(
                assets_srv_url,
                "/portrait/",
                monster_id,
                path_to_form,
                '/',
                Some(emotion),
                ".png",
            );
            assert(r@ =~= url_text(
                asset_type,
                this_srv_url@,
                assets_srv_url@,
                monster_id,
                path_to_form@,
            ));
            r
        },
        AssetType::PortraitFlipped(emotion) => {
            let r = build(
                assets_srv_url,
                "/portrait/",
                monster_id,
                path_to_form,
                '/',
                Some(emotion),
                ".png",
            );
            assert(r@ =~= url_text(
                asset_type,
                this_srv_url@,
                assets_srv_url@,
                monster_id,
                path_to_form@,
            ));
            r
        },
        AssetType::SpriteAnimDataXml => {
            let r = build(
                assets_srv_url,
                "/sprite/",
                monster_id,
                path_to_form,
                '/',
                None,
                "/AnimData.xml",
            );
            assert(r@ =~= url_text(
                asset_type,
                this_srv_url@,
                assets_srv_url@,
                monster_id,
                path_to_form@,
            ));
            r
        },
        AssetType::SpriteZip => {
            let r = build(
                this_srv_url,
                "/assets/",
                monster_id,
                path_to_form,
                '/',
                None,
                "/sprites.zip",
            );
            assert(r@ =~= url_text(
                asset_type,
                this_srv_url@,
                assets_srv_url@,
                monster_id,
                path_to_form@,
            ));
            r
        },
        AssetType::SpriteRecolorSheet => {
            let forced = force_shiny_group(path_to_form);
            let r = build(
                this_srv_url,
                "/assets/sprite_recolor-",
                monster_id,
                forced.as_slice(),
                '-',
                None,
                ".png",
            );
            assert(r@ =~= url_text(
                asset_type,
                this_srv_url@,
                assets_srv_url@,
                monster_id,
                path_to_form@,
            ));
            r
        },
        AssetType::SpriteAnim(action) => {
            let r = build(
                assets_srv_url,
                "/sprite/",
                monster_id,
                path_to_form,
                '/',
                Some(action),
                "-Anim.png",
            );
            assert(r@ =~= url_text(
                asset_type,
                this_srv_url@,
                assets_srv_url@,
                monster_id,
                path_to_form@,
            ));
            r
        },
        AssetType::SpriteOffsets(action) => {
            let r = build(
                assets_srv_url,
                "/sprite/",
                monster_id,
                path_to_form,
                '/',
                Some(action),
                "-Offsets.png",
            );
            assert(r@ =~= url_text(
                asset_type,
                this_srv_url@,
                assets_srv_url@,
                monster_id,
                path_to_form@,
            ));
            r
        },
        AssetType::SpriteShadows(action) => {
            let r = build(
                assets_srv_url,
                "/sprite/",
                monster_id,
                path_to_form,
                '/',
                Some(action),
                "-Shadow.png",
            );
            assert(r@ =~= url_text(
                asset_type,
                this_srv_url@,
                assets_srv_url@,
                monster_id,
                path_to_form@,
            ));
            r
        },
    }
}

/// The text with every `-` turned into `/`.
pub open spec fn dashes_to_slashes(s: Seq<char>) -> Seq<char> {
    Seq::new(
        s.len(),
        |i: int|
            if s[i] == '-' {
                '/'
            } else {
                s[i]
            },
    )
}

/// The text without a `/` at its start.
pub open spec fn without_leading_slash(s: Seq<char>) -> Seq<char> {
    if s.len() > 0 && s[0] == '/' {
        s.drop_first()
    } else {
        s
    }
}

/// `s` is `prefix`, then something that is not empty, then `suffix`.
pub open spec fn framed(s: Seq<char>, prefix: Seq<char>, suffix: Seq<char>) -> bool {
    has_prefix(s, prefix) && has_suffix(s, suffix) && s.len() > prefix.len() + suffix.len()
}

/// What stands in `s` between a prefix and a suffix of the given lengths.
pub open spec fn middle(s: Seq<char>, prefix_len: int, suffix_len: int) -> Seq<char> {
    s.subrange(prefix_len, s.len() - suffix_len)
}

/// The route that a normalized path takes, as a number from 0 to 5, with the
/// text of its form path; `None` where no route fits. The routes, in order:
/// the credits of portraits, the credits of sprites, the portrait sheet, the
/// portrait recolor sheet, the sprite archive, the sprite recolor sheet.
pub open spec fn route_of(p: Seq<char>) -> Option<(int, Seq<char>)> {
    if framed(p, "assets/portrait/credits/"@, ".txt"@) {
        Some((0, middle(p, 24, 4)))
    } else if framed(p, "assets/sprite/credits/"@, ".txt"@) {
        Some((1, middle(p, 22, 4)))
    } else if framed(p, "assets/portrait/"@, ".png"@) {
        Some((2, middle(p, 16, 4)))
    } else if framed(p, "assets/portrait_recolor/"@, ".png"@) {
        Some((3, middle(p, 24, 4)))
    } else if framed(p, "assets/"@, "/sprites.zip"@) {
        Some((4, middle(p, 7, 12)))
    } else if framed(p, "assets/sprite_recolor/"@, ".png"@) {
        Some((5, middle(p, 22, 4)))
    } else {
        None
    }
}

/// The kind of asset that a route serves.
pub open spec fn route_kind(route: int) -> AssetType<'static> {
    if route == 0 {
        AssetType::PortraitCreditsTxt
    } else if route == 1 {
        AssetType::SpriteCreditsTxt
    } else if route == 2 {
        AssetType::PortraitSheet
    } else if route == 3 {
        AssetType::PortraitRecolorSheet
    } else if route == 4 {
        AssetType::SpriteZip
    } else {
        AssetType::SpriteRecolorSheet
    }
}

/// What a request path asks for: the monster, the form path and the kind of
/// asset. Every `-` of the path counts as `/`; the form path is a list of
/// numbers with `/` between them, the first of which is the monster.
pub open spec fn matched(path: Seq<char>) -> Option<(i32, Seq<i32>, AssetType<'static>)> {
    match route_of(without_leading_slash(dashes_to_slashes(path))) {
        None => None,
        Some((route, form)) => match all_numbers(split_on(form, '/')) {
            Some(nums) => if nums.len() > 0 {
                Some((nums[0], nums.drop_first(), route_kind(route)))
            } else {
                None
            },
            None => None,
        },
    }
}

fn is_framed(p: &Vec<char>, prefix: &str, suffix: &str) -> (r: bool)
    ensures
        r == framed(p@, prefix@, suffix@),
{
    let a = prefix.unicode_len();
    let b = suffix.unicode_len();
    assert(p@.subrange(0, p@.len() as int) =~= p@);
    starts_with_at(p, 0, prefix) && ends_with_at(p, p.len(), suffix) && p.len() - a > b
}

fn find_route(p: &Vec<char>) -> (r: Option<(u8, usize, usize)>)
    ensures
        match r {
            Some(t) => route_of(p@) == Some((t.0 as int, p@.subrange(t.1 as int, t.2 as int)))
                && t.1 <= t.2 <= p@.len() && t.0 <= 5,
            None => route_of(p@) is None,
        },
{
    proof {
        reveal_strlit("assets/portrait/credits/");
        reveal_strlit("assets/sprite/credits/");
        reveal_strlit("assets/portrait/");
        reveal_strlit("assets/portrait_recolor/");
        reveal_strlit("assets/");
        reveal_strlit("assets/sprite_recolor/");
        reveal_strlit(".txt");
        reveal_strlit(".png");
        reveal_strlit("/sprites.zip");
    }
    if is_framed(p, "assets/portrait/credits/", ".txt") {
        Some((0, 24, p.len() - 4))
    } else if is_framed(p, "assets/sprite/credits/", ".txt") {
        Some((1, 22, p.len() - 4))
    } else if is_framed(p, "assets/portrait/", ".png") {
        Some((2, 16, p.len() - 4))
    } else if is_framed(p, "assets/portrait_recolor/", ".png") {
        Some((3, 24, p.len() - 4))
    } else if is_framed(p, "assets/", "/sprites.zip") {
        Some((4, 7, p.len() - 12))
    } else if is_framed(p, "assets/sprite_recolor/", ".png") {
        Some((5, 22, p.len() - 4))
    } else {
        None
    }
}

fn kind_of_route(route: u8) -> (r: AssetType<'static>)
    requires
        route <= 5,
    ensures
        r == route_kind(route as int),
{
    if route == 0 {
        AssetType::PortraitCreditsTxt
    } else if route == 1 {
        AssetType::SpriteCreditsTxt
    } else if route == 2 {
        AssetType::PortraitSheet
    } else if route == 3 {
        AssetType::PortraitRecolorSheet
    } else if route == 4 {
        AssetType::SpriteZip
    } else {
        AssetType::SpriteRecolorSheet
    }
}

/// Matches a URL, if it matches returns a tuple of (monster id, form path,
/// asset type).
pub fn match_url(path: &str) -> (r: Option<(i32, Vec<i32>, AssetType<'static>)>)
    ensures
        match (r, matched(path@)) {
            (Some(x), Some(m)) => x.0 == m.0 && x.1@ == m.1 && x.2 == m.2,
            (None, None) => true,
            _ => false,
        },
{
    let raw = chars_of(path);
    let mut p: Vec<char> = Vec::new();
    let mut i: usize = 0;
    while i < raw.len()
        invariant
            i <= raw.len(),
            p@.len() == i,
            forall|k: int| 0 <= k < i ==> p@[k] == dashes_to_slashes(raw@)[k],
        decreases raw.len() - i,
    {
        p.push(if raw[i] == '-' { '/' } else { raw[i] });
        i += 1;
    }
    assert(p@ =~= dashes_to_slashes(path@));
    let q = if p.len() > 0 && p[0] == '/' {
        let q = slice_chars(&p, 1, p.len());
        assert(q@ =~= p@.drop_first());
        q
    } else {
        p
    };
    let (route, from, to) = match find_route(&q) {
        Some(t) => t,
        None => {
            return None;
        },
    };
    let form = slice_chars(&q, from, to);
    let parts = split_chars(&form, '/');
    let mut nums: Vec<i32> = Vec::new();
    let mut k: usize = 0;
    assert(char_views(parts@).subrange(0, 0) =~= Seq::<Seq<char>>::empty());
    while k < parts.len()
        invariant
            k <= parts.len(),
            route_of(without_leading_slash(dashes_to_slashes(path@))) == Some(
                (route as int, form@),
            ),
            char_views(parts@) == split_on(form@, '/'),
            all_numbers(char_views(parts@).subrange(0, k as int)) == Some(nums@),
        decreases parts.len() - k,
    {
        proof {
            let next = char_views(parts@).subrange(0, k as int + 1);
            assert(next.drop_last() =~= char_views(parts@).subrange(0, k as int));
            assert(next.last() == parts@[k as int]@);
        }
        match read_i32(&parts[k]) {
            Some(n) => {
                nums.push(n);
            },
            None => {
                proof {
                    lemma_numbers_stay_bad(char_views(parts@), k as int + 1);
                }
                return None;
            },
        }
        k += 1;
    }
    assert(char_views(parts@).subrange(0, parts@.len() as int) =~= char_views(parts@));
    if nums.len() == 0 {
        return None;
    }
    let monster_id = nums.remove(0);
    Some((monster_id, nums, kind_of_route(route)))
}

/// Once a beginning of the texts holds a text that is no number, the whole
/// list does.
pub proof fn lemma_numbers_stay_bad(parts: Seq<Seq<char>>, n: int)
    requires
        0 <= n <= parts.len(),
        all_numbers(parts.subrange(0, n)) is None,
    ensures
        all_numbers(parts) is None,
    decreases parts.len() - n,
{
    if n < parts.len() {
        let next = parts.subrange(0, n + 1);
        assert(next.drop_last() =~= parts.subrange(0, n));
        lemma_numbers_stay_bad(parts, n + 1);
    } else {
        assert(parts.subrange(0, n) =~= parts);
    }
}

} // verus!
