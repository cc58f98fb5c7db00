//! The address of an asset, read back as a request, gives the asset.

use vstd::prelude::*;
use crate::activity::all_numbers;
use crate::decimal::{all_digits, digit_value, padded};
use crate::decimal_laws::{lemma_padded_is_digits, lemma_padded_reads_back};
use crate::records::split_on;
use crate::text::{has_prefix, has_suffix};
use crate::url::{
    AssetType,
    canonical_form,
    dashes_to_slashes,
    framed,
    matched,
    middle,
    route_kind,
    route_of,
    url_text,
    without_leading_slash,
};
use crate::util::{join_monster_and_form_text, led_form, strip_trailing_zeros};

verus! {

/// `s` holds no `c`.
pub open spec fn free_of(s: Seq<char>, c: char) -> bool {
    forall|i: int| 0 <= i < s.len() ==> s[i] != c
}

/// Digits hold neither `-` nor `/`.
pub proof fn lemma_digits_are_free(s: Seq<char>)
    requires
        all_digits(s),
    ensures
        free_of(s, '-'),
        free_of(s, '/'),
{
    assert forall|i: int| 0 <= i < s.len() implies s[i] != '-' && s[i] != '/' by {
        assert(digit_value(s[i]) is Some);
    }
}

/// Turning dashes into slashes goes part by part.
pub proof fn lemma_dashes_split(a: Seq<char>, b: Seq<char>)
    ensures
        dashes_to_slashes(a + b) == dashes_to_slashes(a) + dashes_to_slashes(b),
{
    assert(dashes_to_slashes(a + b) =~= dashes_to_slashes(a) + dashes_to_slashes(b));
}

/// A text without dashes stays as it is.
pub proof fn lemma_dashes_none(a: Seq<char>)
    requires
        free_of(a, '-'),
    ensures
        dashes_to_slashes(a) == a,
{
    assert(dashes_to_slashes(a) =~= a);
}

/// Every element of the path is at least 0.
pub open spec fn all_nonnegative(path: Seq<i32>) -> bool {
    forall|i: int| 0 <= i < path.len() ==> path[i] >= 0
}

/// A form path written with dashes or slashes reads with slashes once the
/// dashes are turned.
pub proof fn lemma_led_form_turns(path: Seq<i32>, sep: char)
    requires
        all_nonnegative(path),
        sep == '-' || sep == '/',
    ensures
        dashes_to_slashes(led_form(path, sep)) == led_form(path, '/'),
    decreases path.len(),
{
    if path.len() == 0 {
        assert(dashes_to_slashes(Seq::<char>::empty()) =~= Seq::<char>::empty());
    } else {
        assert(all_nonnegative(path.drop_last())) by {
            assert forall|i: int| 0 <= i < path.drop_last().len() implies path.drop_last()[i]
                >= 0 by {
                assert(path.drop_last()[i] == path[i]);
            }
        }
        lemma_led_form_turns(path.drop_last(), sep);
        let head = led_form(path.drop_last(), sep);
        let last = padded(path.last() as int, 4);
        lemma_padded_is_digits(path.last() as int, 4);
        lemma_digits_are_free(last);
        lemma_dashes_none(last);
        lemma_dashes_split(head + seq![sep], last);
        lemma_dashes_split(head, seq![sep]);
        assert(dashes_to_slashes(seq![sep]) =~= seq!['/']);
    }
}

/// A monster and a form path written with dashes or slashes read with
/// slashes once the dashes are turned.
pub proof fn lemma_joined_turns(monster_id: i32, path: Seq<i32>, sep: char)
    requires
        monster_id >= 0,
        all_nonnegative(path),
        sep == '-' || sep == '/',
    ensures
        dashes_to_slashes(join_monster_and_form_text(monster_id, path, sep))
            == join_monster_and_form_text(monster_id, path, '/'),
{
    let m = padded(monster_id as int, 4);
    lemma_padded_is_digits(monster_id as int, 4);
    lemma_digits_are_free(m);
    lemma_dashes_none(m);
    lemma_led_form_turns(path, sep);
    lemma_dashes_split(m, led_form(path, sep));
}

/// A text without separator is one part.
pub proof fn lemma_split_one(t: Seq<char>, sep: char)
    requires
        free_of(t, sep),
    ensures
        split_on(t, sep) == seq![t],
    decreases t.len(),
{
    if t.len() > 0 {
        assert(free_of(t.drop_last(), sep)) by {
            assert forall|i: int| 0 <= i < t.drop_last().len() implies t.drop_last()[i] != sep by {
                assert(t.drop_last()[i] == t[i]);
            }
        }
        lemma_split_one(t.drop_last(), sep);
        let rest = split_on(t.drop_last(), sep);
        assert(rest.update(rest.len() - 1, rest.last().push(t.last())) =~= seq![t]) by {
            assert(t.drop_last().push(t.last()) =~= t);
        }
    } else {
        assert(t =~= Seq::<char>::empty());
    }
}

/// A separator and a text without separator, added to a text, add one part.
pub proof fn lemma_split_adds_part(s: Seq<char>, t: Seq<char>, sep: char)
    requires
        free_of(t, sep),
    ensures
        split_on(s + seq![sep] + t, sep) == split_on(s, sep).push(t),
    decreases t.len(),
{
    let all = s + seq![sep] + t;
    if t.len() == 0 {
        assert(all.drop_last() =~= s);
        assert(all.last() == sep);
        assert(t =~= Seq::<char>::empty());
    } else {
        assert(free_of(t.drop_last(), sep)) by {
            assert forall|i: int| 0 <= i < t.drop_last().len() implies t.drop_last()[i] != sep by {
                assert(t.drop_last()[i] == t[i]);
            }
        }
        lemma_split_adds_part(s, t.drop_last(), sep);
        assert(all.drop_last() =~= s + seq![sep] + t.drop_last());
        assert(all.last() == t.last());
        let rest = split_on(all.drop_last(), sep);
        assert(rest.update(rest.len() - 1, rest.last().push(t.last())) =~= split_on(s, sep).push(t))
            by {
            assert(t.drop_last().push(t.last()) =~= t);
        }
    }
}

/// The numbers of a path, each written with four digits.
pub open spec fn written(path: Seq<i32>) -> Seq<Seq<char>> {
    Seq::new(path.len(), |i: int| padded(path[i] as int, 4))
}

/// A monster and a form path written with slashes split into the written
/// numbers.
pub proof fn lemma_joined_splits(monster_id: i32, path: Seq<i32>)
    requires
        monster_id >= 0,
        all_nonnegative(path),
    ensures
        split_on(join_monster_and_form_text(monster_id, path, '/'), '/') == seq![
            padded(monster_id as int, 4),
        ] + written(path),
    decreases path.len(),
{
    let m = padded(monster_id as int, 4);
    lemma_padded_is_digits(monster_id as int, 4);
    lemma_digits_are_free(m);
    if path.len() == 0 {
        lemma_split_one(m, '/');
        assert(join_monster_and_form_text(monster_id, path, '/') =~= m);
        assert(seq![m] + written(path) =~= seq![m]);
    } else {
        assert(all_nonnegative(path.drop_last())) by {
            assert forall|i: int| 0 <= i < path.drop_last().len() implies path.drop_last()[i]
                >= 0 by {
                assert(path.drop_last()[i] == path[i]);
            }
        }
        lemma_joined_splits(monster_id, path.drop_last());
        let last = padded(path.last() as int, 4);
        lemma_padded_is_digits(path.last() as int, 4);
        lemma_digits_are_free(last);
        let head = join_monster_and_form_text(monster_id, path.drop_last(), '/');
        lemma_split_adds_part(head, last, '/');
        assert(join_monster_and_form_text(monster_id, path, '/') =~= head + seq!['/'] + last);
        assert((seq![m] + written(path.drop_last())).push(last) =~= seq![m] + written(path));
    }
}

/// The written numbers of a path read as the path.
pub proof fn lemma_written_reads_back(path: Seq<i32>)
    requires
        all_nonnegative(path),
    ensures
        all_numbers(written(path)) == Some(path),
    decreases path.len(),
{
    if path.len() == 0 {
        assert(written(path) =~= Seq::<Seq<char>>::empty());
        assert(path =~= Seq::<i32>::empty());
    } else {
        assert(all_nonnegative(path.drop_last())) by {
            assert forall|i: int| 0 <= i < path.drop_last().len() implies path.drop_last()[i]
                >= 0 by {
                assert(path.drop_last()[i] == path[i]);
            }
        }
        lemma_written_reads_back(path.drop_last());
        lemma_padded_reads_back(path.last(), 4);
        assert(written(path).drop_last() =~= written(path.drop_last()));
        assert(written(path).last() == padded(path.last() as int, 4));
        assert(path.drop_last().push(path.last()) =~= path);
    }
}

/// A monster and a form path written with slashes read as the monster
/// followed by the path.
pub proof fn lemma_joined_reads_back(monster_id: i32, path: Seq<i32>)
    requires
        monster_id >= 0,
        all_nonnegative(path),
    ensures
        all_numbers(split_on(join_monster_and_form_text(monster_id, path, '/'), '/')) == Some(
            seq![monster_id] + path,
        ),
{
    lemma_joined_splits(monster_id, path);
    let all = seq![monster_id] + path;
    assert(all_nonnegative(all));
    lemma_written_reads_back(all);
    assert(written(all) =~= seq![padded(monster_id as int, 4)] + written(path));
}

/// The canonical form of a path without negative elements has none.
pub proof fn lemma_canonical_nonnegative(kind: AssetType, path: Seq<i32>)
    requires
        all_nonnegative(path),
    ensures
        all_nonnegative(canonical_form(kind, path)),
{
    match kind {
        AssetType::PortraitRecolorSheet => {
            let p = if path.len() >= 2 {
                path.update(1, 0)
            } else {
                path
            };
            assert(all_nonnegative(p));
            lemma_strip_nonnegative(p);
        },
        AssetType::SpriteRecolorSheet => {},
        _ => {},
    }
}

/// Stripping zeros leaves no negative element where there was none.
pub proof fn lemma_strip_nonnegative(path: Seq<i32>)
    requires
        all_nonnegative(path),
    ensures
        all_nonnegative(strip_trailing_zeros(path)),
    decreases path.len(),
{
    if path.len() > 0 && path.last() == 0 {
        assert(all_nonnegative(path.drop_last())) by {
            assert forall|i: int| 0 <= i < path.drop_last().len() implies path.drop_last()[i]
                >= 0 by {
                assert(path.drop_last()[i] == path[i]);
            }
        }
        lemma_strip_nonnegative(path.drop_last());
    }
}

/// The kinds of assets that this server serves under a route.
pub open spec fn routed(kind: AssetType) -> Option<int> {
    match kind {
        AssetType::PortraitCreditsTxt => Some(0),
        AssetType::SpriteCreditsTxt => Some(1),
        AssetType::PortraitSheet => Some(2),
        AssetType::PortraitRecolorSheet => Some(3),
        AssetType::SpriteZip => Some(4),
        AssetType::SpriteRecolorSheet => Some(5),
        _ => None,
    }
}

/// A text that differs from a prefix at some place does not begin with it.
pub proof fn lemma_not_prefix(s: Seq<char>, p: Seq<char>, i: int)
    requires
        0 <= i < p.len(),
        i < s.len(),
        s[i] != p[i],
    ensures
        !has_prefix(s, p),
{
    if has_prefix(s, p) {
        assert(s.subrange(0, p.len() as int)[i] == s[i]);
    }
}

/// A text whose last character differs from that of a suffix does not end
/// with it.
pub proof fn lemma_not_suffix(s: Seq<char>, x: Seq<char>)
    requires
        x.len() > 0,
        s.len() > 0,
        s.last() != x.last(),
    ensures
        !has_suffix(s, x),
{
    if has_suffix(s, x) {
        assert(s.subrange(s.len() - x.len(), s.len() as int)[x.len() - 1] == s.last());
    }
}

/// A text made of a prefix, a middle that is not empty and a suffix is
/// framed by the two, and the middle stands between them.
pub proof fn lemma_framed(prefix: Seq<char>, mid: Seq<char>, suffix: Seq<char>)
    requires
        mid.len() > 0,
    ensures
        framed(prefix + mid + suffix, prefix, suffix),
        middle(prefix + mid + suffix, prefix.len() as int, suffix.len() as int) == mid,
{
    let s = prefix + mid + suffix;
    assert(s.subrange(0, prefix.len() as int) =~= prefix);
    assert(s.subrange(s.len() - suffix.len(), s.len() as int) =~= suffix);
    assert(s.subrange(prefix.len() as int, s.len() - suffix.len()) =~= mid);
}

/// The normalized path of the address of a routed asset: the route's prefix,
/// the monster and the canonical form path with slashes, the route's suffix.
pub open spec fn normal_path(route: int, joined: Seq<char>) -> Seq<char> {
    if route == 0 {
        "assets/portrait/credits/"@ + joined + ".txt"@
    } else if route == 1 {
        "assets/sprite/credits/"@ + joined + ".txt"@
    } else if route == 2 {
        "assets/portrait/"@ + joined + ".png"@
    } else if route == 3 {
        "assets/portrait_recolor/"@ + joined + ".png"@
    } else if route == 4 {
        "assets/"@ + joined + "/sprites.zip"@
    } else {
        "assets/sprite_recolor/"@ + joined + ".png"@
    }
}

/// The normalized path of a route takes that route, and its form path is the
/// joined text.
pub proof fn lemma_route_found(route: int, joined: Seq<char>)
    requires
        0 <= route <= 5,
        joined.len() > 0,
        digit_value(joined[0]) is Some,
    ensures
        route_of(normal_path(route, joined)) == Some((route, joined)),
{
    reveal_strlit("assets/portrait/credits/");
    reveal_strlit("assets/sprite/credits/");
    reveal_strlit("assets/portrait/");
    reveal_strlit("assets/portrait_recolor/");
    reveal_strlit("assets/");
    reveal_strlit("assets/sprite_recolor/");
    reveal_strlit(".txt");
    reveal_strlit(".png");
    reveal_strlit("/sprites.zip");
    let p = normal_path(route, joined);
    let txt = ".txt"@;
    let png = ".png"@;
    let zip = "/sprites.zip"@;
    if route == 0 {
        lemma_framed("assets/portrait/credits/"@, joined, txt);
    } else if route == 1 {
        lemma_framed("assets/sprite/credits/"@, joined, txt);
        assert(p[7] == 's');
        lemma_not_prefix(p, "assets/portrait/credits/"@, 7);
    } else if route == 2 {
        lemma_framed("assets/portrait/"@, joined, png);
        assert(p.last() == 'g');
        lemma_not_suffix(p, txt);
    } else if route == 3 {
        lemma_framed("assets/portrait_recolor/"@, joined, png);
        assert(p.last() == 'g');
        lemma_not_suffix(p, txt);
        assert(p[15] == '_');
        lemma_not_prefix(p, "assets/portrait/"@, 15);
    } else if route == 4 {
        lemma_framed("assets/"@, joined, zip);
        assert(p.last() == 'p');
        lemma_not_suffix(p, txt);
        lemma_not_suffix(p, png);
    } else {
        lemma_framed("assets/sprite_recolor/"@, joined, png);
        assert(p.last() == 'g');
        lemma_not_suffix(p, txt);
        lemma_not_suffix(p, zip);
        assert(p[7] == 's');
        lemma_not_prefix(p, "assets/portrait/"@, 7);
        lemma_not_prefix(p, "assets/portrait_recolor/"@, 7);
    }
}

/// The address of a routed asset on a server without name, with its dashes
/// turned and its first slash taken off, is the normalized path of the
/// route.
pub proof fn lemma_address_normalizes(
    kind: AssetType,
    assets_srv_url: Seq<char>,
    monster_id: i32,
    path: Seq<i32>,
)
    requires
        routed(kind) is Some,
        monster_id >= 0,
        all_nonnegative(path),
    ensures
        without_leading_slash(
            dashes_to_slashes(url_text(kind, Seq::empty(), assets_srv_url, monster_id, path)),
        ) == normal_path(
            routed(kind)->0,
            join_monster_and_form_text(monster_id, canonical_form(kind, path), '/'),
        ),
{
    reveal_strlit("assets/portrait/credits/");
    reveal_strlit("assets/sprite/credits/");
    reveal_strlit("assets/portrait/");
    reveal_strlit("assets/portrait_recolor/");
    reveal_strlit("assets/");
    reveal_strlit("assets/sprite_recolor/");
    reveal_strlit("/assets/portrait-credits-");
    reveal_strlit("/assets/sprite-credits-");
    reveal_strlit("/assets/portrait-");
    reveal_strlit("/assets/portrait_recolor-");
    reveal_strlit("/assets/");
    reveal_strlit("/assets/sprite_recolor-");
    reveal_strlit(".txt");
    reveal_strlit(".png");
    reveal_strlit("/sprites.zip");
    let cf = canonical_form(kind, path);
    lemma_canonical_nonnegative(kind, path);
    let none = Seq::<char>::empty();
    let slashed = join_monster_and_form_text(monster_id, cf, '/');
    let url = url_text(kind, none, assets_srv_url, monster_id, path);
    let (head, written, tail) = match kind {
        AssetType::PortraitCreditsTxt => (
            "/assets/portrait-credits-"@,
            join_monster_and_form_text(monster_id, cf, '-'),
            ".txt"@,
        ),
        AssetType::SpriteCreditsTxt => (
            "/assets/sprite-credits-"@,
            join_monster_and_form_text(monster_id, cf, '-'),
            ".txt"@,
        ),
        AssetType::PortraitSheet => (
            "/assets/portrait-"@,
            join_monster_and_form_text(monster_id, cf, '-'),
            ".png"@,
        ),
        AssetType::PortraitRecolorSheet => (
            "/assets/portrait_recolor-"@,
            join_monster_and_form_text(monster_id, cf, '-'),
            ".png"@,
        ),
        AssetType::SpriteZip => (
            "/assets/"@,
            join_monster_and_form_text(monster_id, cf, '/'),
            "/sprites.zip"@,
        ),
        _ => ("/assets/sprite_recolor-"@, join_monster_and_form_text(monster_id, cf, '-'), ".png"@),
    };
    assert(url =~= head + written + tail);
    if kind is SpriteZip {
        lemma_joined_turns(monster_id, cf, '/');
    } else {
        lemma_joined_turns(monster_id, cf, '-');
    }
    lemma_dashes_split(head + written, tail);
    lemma_dashes_split(head, written);
    assert(dashes_to_slashes(tail) =~= tail);
    let turned_head = dashes_to_slashes(head);
    let turned = turned_head + slashed + tail;
    assert(dashes_to_slashes(url) == turned);
    assert(turned_head[0] == '/');
    assert(turned[0] == '/');
    let want = normal_path(routed(kind)->0, slashed);
    assert(turned_head.drop_first() + slashed + tail =~= turned.drop_first());
    match kind {
        AssetType::PortraitCreditsTxt => {
            assert(turned_head.drop_first() =~= "assets/portrait/credits/"@);
        },
        AssetType::SpriteCreditsTxt => {
            assert(turned_head.drop_first() =~= "assets/sprite/credits/"@);
        },
        AssetType::PortraitSheet => {
            assert(turned_head.drop_first() =~= "assets/portrait/"@);
        },
        AssetType::PortraitRecolorSheet => {
            assert(turned_head.drop_first() =~= "assets/portrait_recolor/"@);
        },
        AssetType::SpriteZip => {
            assert(turned_head.drop_first() =~= "assets/"@);
        },
        _ => {
            assert(turned_head.drop_first() =~= "assets/sprite_recolor/"@);
        },
    }
}

/// The kind of a routed asset is the kind that its route serves.
pub proof fn lemma_route_kind(kind: AssetType)
    requires
        routed(kind) is Some,
    ensures
        route_kind(routed(kind)->0) == kind,
{
}

/// The address of an asset, read as a request, gives the asset back: the
/// monster, the form path in the canonical form of the kind, and the kind.
/// This holds for the kinds that this server serves under a route, written
/// for a server without name, with a monster and a form path that hold no
/// negative number.
pub proof fn lemma_match_url_reads_get_url(
    kind: AssetType,
    assets_srv_url: Seq<char>,
    monster_id: i32,
    path: Seq<i32>,
)
    requires
        routed(kind) is Some,
        monster_id >= 0,
        all_nonnegative(path),
    ensures
        matched(url_text(kind, Seq::empty(), assets_srv_url, monster_id, path)) == Some(
            (monster_id, canonical_form(kind, path), kind),
        ),
{
    let cf = canonical_form(kind, path);
    lemma_canonical_nonnegative(kind, path);
    let joined = join_monster_and_form_text(monster_id, cf, '/');
    lemma_address_normalizes(kind, assets_srv_url, monster_id, path);
    lemma_padded_is_digits(monster_id as int, 4);
    assert(joined[0] == padded(monster_id as int, 4)[0]);
    lemma_route_found(routed(kind)->0, joined);
    lemma_joined_reads_back(monster_id, cf);
    lemma_route_kind(kind);
    let nums = seq![monster_id] + cf;
    assert(nums[0] == monster_id);
    assert(nums.drop_first() =~= cf);
}

} // verus!
