use spritecollab::assets::{
    cache_archive, emotions_incl_flipped, make_credits_txt, make_sprite_zip,
    match_and_process_assets_path, pack_entries, sprite_zip_entries,
};
use spritecollab::bitmap::{Bitmap, Pixel};
use spritecollab::cache::CacheBehaviour;
use spritecollab::error::SheetError;
use spritecollab::fs_check::{
    cache_key, credits_key, get_existing_portrait_file, get_existing_sprite_file,
    get_local_credits_file, iter_existing_portrait_files, iter_existing_sprite_files,
    local_credits_path, lookup_answer, AssetCategory, FileLookup, FileLookupCache,
};
use spritecollab::img_util::{decode_image, to_png};
use spritecollab::portrait_sheets::{
    do_make_portrait_sheet, make_portrait_recolor_sheet, make_portrait_sheet, PortraitSheetEmotions,
};
use spritecollab::sprite_config::SpriteConfig;
use spritecollab::tracker::{Group, Tracker};
use spritecollab::url::AssetType;
use std::collections::HashMap;
use std::io::Read;

const CLEAR: Pixel = Pixel { r: 0, g: 0, b: 0, a: 0 };
const RED: Pixel = Pixel { r: 255, g: 0, b: 0, a: 255 };
const BLUE: Pixel = Pixel { r: 0, g: 0, b: 255, a: 255 };

fn strings(v: &[&str]) -> Vec<String> {
    v.iter().map(|s| s.to_string()).collect()
}

fn filled(w: u32, h: u32, p: Pixel) -> Vec<u8> {
    let img = Bitmap::from_pixels(w, h, vec![p; (w * h) as usize]).unwrap();
    to_png(&img).unwrap()
}

fn bytes_of(r: Result<CacheBehaviour<Vec<u8>>, SheetError>) -> Vec<u8> {
    match r.unwrap() {
        CacheBehaviour::Cache(b) => b,
        CacheBehaviour::NoCache(_) => panic!("the sheet is to be cached"),
    }
}

fn portrait_group(files: &[&str]) -> Group {
    let mut g = Group::named("Pikachu");
    for f in files {
        g.portrait_files.insert(f.to_string(), false);
    }
    g
}

#[test]
fn emotions_are_laid_out_row_by_row() {
    let e = PortraitSheetEmotions::new(strings(&["Normal", "Happy", "Pain", "Angry", "Sad"]), 2);
    assert_eq!(
        e.emotion_positions,
        vec![
            ("Normal".to_string(), (0, 0)),
            ("Happy".to_string(), (1, 0)),
            ("Pain".to_string(), (0, 1)),
            ("Angry".to_string(), (1, 1)),
            ("Sad".to_string(), (0, 2)),
        ]
    );
    assert_eq!((e.max_width, e.max_height), (2, 3));
    let e = PortraitSheetEmotions::new(strings(&["Normal", "Happy", "Pain", "Angry"]), 2);
    assert_eq!((e.max_width, e.max_height), (2, 2));
    let e = PortraitSheetEmotions::new(strings(&["Normal"]), 5);
    assert_eq!((e.max_width, e.max_height), (1, 1));
    let e = PortraitSheetEmotions::new(vec![], 5);
    assert_eq!((e.max_width, e.max_height), (0, 0));
    let e = PortraitSheetEmotions::new(strings(&["A", "B", "A"]), 2);
    assert_eq!(e.emotion_positions, vec![("A".to_string(), (0, 1)), ("B".to_string(), (1, 0))]);
}

#[test]
fn the_portrait_sheet_holds_each_portrait_in_its_cell() {
    let emotions = PortraitSheetEmotions::new(strings(&["Normal", "Happy", "Pain"]), 2);
    let group = portrait_group(&["Pain", "Normal", "Dizzy", "Happy"]);
    let files = vec![
        ("Normal".to_string(), filled(2, 2, RED)),
        ("Pain".to_string(), filled(2, 2, BLUE)),
        ("Dizzy".to_string(), filled(2, 2, RED)),
        ("Happy".to_string(), b"broken".to_vec()),
    ];
    let sheet = decode_image(&bytes_of(make_portrait_sheet(&group, &emotions, &files, 2))).unwrap();
    assert_eq!((sheet.width, sheet.height), (4, 4));
    for y in 0..4 {
        for x in 0..4 {
            let expected = if x < 2 && y < 2 {
                RED
            } else if x < 2 {
                BLUE
            } else {
                CLEAR
            };
            assert_eq!(sheet.get_pixel(x, y), expected, "({}, {})", x, y);
        }
    }
}

#[test]
fn the_portrait_recolor_sheet_has_a_palette_row() {
    let emotions = PortraitSheetEmotions::new(strings(&["Normal", "Happy"]), 2);
    let group = portrait_group(&["Normal", "Happy"]);
    let files = vec![
        ("Happy".to_string(), filled(2, 2, BLUE)),
        ("Normal".to_string(), filled(2, 2, RED)),
    ];
    let sheet =
        decode_image(&bytes_of(make_portrait_recolor_sheet(&group, &emotions, &files, 2))).unwrap();
    assert_eq!((sheet.width, sheet.height), (4, 3));
    assert_eq!(sheet.get_pixel(0, 0), RED);
    assert_eq!(sheet.get_pixel(1, 0), BLUE);
    assert_eq!(sheet.get_pixel(2, 0), CLEAR);
    assert_eq!(sheet.get_pixel(0, 1), RED);
    assert_eq!(sheet.get_pixel(3, 2), BLUE);
}

#[test]
fn a_portrait_that_does_not_fit_is_an_error() {
    let emotions = PortraitSheetEmotions::new(strings(&["Normal", "Happy"]), 2);
    let group = portrait_group(&["Normal", "Happy"]);
    let files = vec![
        ("Normal".to_string(), filled(2, 2, RED)),
        ("Happy".to_string(), filled(3, 2, BLUE)),
    ];
    assert_eq!(
        do_make_portrait_sheet(0, &group, &emotions, &files, 2).unwrap_err(),
        SheetError::DimensionMismatch("Happy".to_string())
    );
    assert_eq!(
        do_make_portrait_sheet(0, &group, &emotions, &files, -2).unwrap_err(),
        SheetError::TooLarge
    );
    let empty = PortraitSheetEmotions::new(vec![], 2);
    let sheet = do_make_portrait_sheet(1, &group, &empty, &files, 2).unwrap();
    assert_eq!((sheet.width, sheet.height), (0, 1));
}

#[test]
fn flipped_emotions_follow_the_others() {
    let cfg = SpriteConfig {
        portrait_size: 40,
        portrait_tile_x: 5,
        portrait_tile_y: 8,
        completion_emotions: vec![],
        emotions: strings(&["Normal", "Happy"]),
        completion_actions: vec![],
        actions: vec![],
        action_map: HashMap::new(),
    };
    assert_eq!(emotions_incl_flipped(&cfg), vec!["Normal", "Happy", "Normal^", "Happy^"]);
}

#[test]
fn the_archive_leaves_the_credits_out() {
    let files = vec![
        ("Walk-Anim.png".to_string(), vec![1, 2, 3]),
        ("credits.txt".to_string(), vec![4]),
        ("AnimData.xml".to_string(), b"<AnimData/>".to_vec()),
    ];
    let entries = sprite_zip_entries(files.clone());
    assert_eq!(entries, vec![files[0].clone(), files[2].clone()]);
    let bytes = match make_sprite_zip(files).unwrap() {
        CacheBehaviour::Cache(b) => b,
        CacheBehaviour::NoCache(_) => panic!("the archive is to be cached"),
    };
    let mut archive = zip::ZipArchive::new(std::io::Cursor::new(bytes)).unwrap();
    assert_eq!(archive.len(), 2);
    let mut content = Vec::new();
    {
        let mut first = archive.by_index(0).unwrap();
        assert_eq!(first.name(), "Walk-Anim.png");
        assert_eq!(first.compression(), zip::CompressionMethod::Deflated);
        first.read_to_end(&mut content).unwrap();
    }
    assert_eq!(content, vec![1, 2, 3]);
    let mut content = String::new();
    archive.by_name("AnimData.xml").unwrap().read_to_string(&mut content).unwrap();
    assert_eq!(content, "<AnimData/>");
    assert!(archive.by_name("credits.txt").is_err());
    assert!(matches!(make_sprite_zip(vec![]), Ok(CacheBehaviour::Cache(_))));
}

#[test]
fn the_archive_depends_on_its_files_alone() {
    let files = vec![
        ("Walk-Anim.png".to_string(), vec![7u8; 300]),
        ("credits.txt".to_string(), b"x".to_vec()),
        ("Empty".to_string(), vec![]),
    ];
    let kept = vec![files[0].clone(), files[2].clone()];
    let first = pack_entries(&kept).unwrap();
    let second = pack_entries(&kept).unwrap();
    assert_eq!(first, second);
    assert!(matches!(make_sprite_zip(files.clone()), Ok(CacheBehaviour::Cache(b)) if b == first));
    assert!(first.len() < 300);
    let mut archive = zip::ZipArchive::new(std::io::Cursor::new(first.clone())).unwrap();
    assert_eq!(archive.len(), 2);
    assert_eq!(archive.by_index(1).unwrap().name(), "Empty");
    assert_eq!(archive.by_index(1).unwrap().size(), 0);
    assert_eq!(archive.by_index(0).unwrap().size(), 300);
    let other = pack_entries(&vec![files[0].clone()]).unwrap();
    assert_ne!(first, other);
}

#[test]
fn a_packed_archive_is_to_be_cached_and_an_error_is_handed_on() {
    assert!(matches!(cache_archive(Ok(vec![1, 2, 3])), Ok(CacheBehaviour::Cache(b)) if b == vec![1, 2, 3]));
    assert!(matches!(cache_archive(Ok(vec![])), Ok(CacheBehaviour::Cache(b)) if b.is_empty()));
    assert_eq!(cache_archive(Err("no room".to_string())).unwrap_err(), "no room");
}

#[test]
fn packing_stops_at_the_first_file_that_the_writer_refuses() {
    let twice = vec![
        ("a".to_string(), vec![1u8]),
        ("b".to_string(), vec![2u8]),
        ("a".to_string(), vec![3u8]),
        ("b".to_string(), vec![4u8]),
    ];
    let first = pack_entries(&twice).unwrap_err();
    assert_eq!(first, pack_entries(&twice).unwrap_err());
    assert_eq!(first, make_sprite_zip(twice.clone()).unwrap_err());
    assert!(first.contains('a'));
    // Without the file that is refused first, the next one is.
    let rest = vec![twice[0].clone(), twice[1].clone(), twice[3].clone()];
    let second = pack_entries(&rest).unwrap_err();
    assert!(second.contains('b'));
    assert_ne!(first, second);
    assert!(pack_entries(&vec![twice[0].clone(), twice[1].clone()]).is_ok());
    // The credit history is left out before the packing, so two of them do no harm.
    let histories = vec![
        ("credits.txt".to_string(), vec![1u8]),
        ("a".to_string(), vec![2u8]),
        ("credits.txt".to_string(), vec![3u8]),
    ];
    assert!(pack_entries(&histories).is_err());
    assert!(matches!(
        make_sprite_zip(histories),
        Ok(CacheBehaviour::Cache(b)) if b == pack_entries(&vec![("a".to_string(), vec![2u8])]).unwrap()
    ));
}

#[test]
fn a_name_cannot_be_packed_twice() {
    let files = vec![
        ("Walk-Anim.png".to_string(), vec![1u8, 2, 3]),
        ("Walk-Anim.png".to_string(), vec![4u8]),
    ];
    assert!(pack_entries(&files).is_err());
    assert!(make_sprite_zip(files).is_err());
}

#[test]
fn the_credit_text_is_empty_without_a_history() {
    assert!(matches!(make_credits_txt(Some("abc".to_string())), CacheBehaviour::Cache(t) if t == "abc"));
    assert!(matches!(make_credits_txt(None), CacheBehaviour::Cache(t) if t.is_empty()));
}

fn tracker() -> Tracker {
    let mut shiny = Group::named("Shiny");
    shiny.subgroups.insert(2, Group::named("Female"));
    let mut base = Group::named("");
    base.subgroups.insert(1, shiny);
    let mut alt = Group::named("Alt");
    alt.subgroups.insert(1, Group::named("Alt Shiny"));
    let mut root = Group::named("Pikachu");
    root.subgroups.insert(0, base);
    root.subgroups.insert(3, alt);
    let mut t: Tracker = HashMap::new();
    t.insert(25, root);
    t
}

#[test]
fn a_request_is_resolved_to_its_form() {
    let t = tracker();
    let r = match_and_process_assets_path(true, "/assets/portrait-0025-0003.png", &t).unwrap();
    assert!(matches!(r.asset_type, AssetType::PortraitSheet));
    assert_eq!(r.monster_idx, 25);
    assert_eq!(r.form_path, vec![3]);
    assert_eq!(r.group.name, "Alt");
    assert_eq!(r.portrait_base_path, "spritecollab/portrait/0025/0003");
    assert_eq!(r.sprite_base_path, "spritecollab/sprite/0025/0003");
    assert_eq!(r.cache_key, "portrait_sheet|25/[3]");
    let r = match_and_process_assets_path(true, "/assets/0025/0000/0001/0002/sprites.zip", &t).unwrap();
    assert_eq!(r.form_path, vec![0, 1, 2]);
    assert_eq!(r.cache_key, "sprite_zip|25/[0, 1, 2]");
    assert_eq!(r.sprite_base_path, "spritecollab/sprite/0025/0000/0001/0002");
    let r = match_and_process_assets_path(true, "/assets/sprite/credits/0025/0003/0000.txt", &t).unwrap();
    assert_eq!(r.form_path, vec![3]);
    assert_eq!(r.cache_key, "sprite_credits_txt|25/[3]");
}

#[test]
fn recolor_requests_are_served_by_the_canonical_form() {
    let t = tracker();
    // The sprite recolor sheet is that of the shiny form.
    let r = match_and_process_assets_path(true, "/assets/sprite_recolor-0025-0000-0000.png", &t).unwrap();
    assert_eq!(r.form_path, vec![0, 1]);
    assert_eq!(r.group.name, "Shiny");
    assert_eq!(r.cache_key, "sprite_recolor_sheet|25/[0, 1]");
    let r = match_and_process_assets_path(true, "/assets/sprite_recolor-0025-0003.png", &t).unwrap();
    assert_eq!(r.form_path, vec![3, 1]);
    assert_eq!(r.group.name, "Alt Shiny");
    // The portrait recolor sheet is that of the form that is not shiny.
    let r = match_and_process_assets_path(true, "/assets/portrait_recolor-0025-0003-0001.png", &t).unwrap();
    assert_eq!(r.form_path, vec![3]);
    assert_eq!(r.group.name, "Alt");
    assert_eq!(r.cache_key, "portrait_recolor_sheet|25/[3]");
}

#[test]
fn requests_that_cannot_be_served() {
    let t = tracker();
    assert!(match_and_process_assets_path(false, "/assets/portrait-0025-0003.png", &t).is_none());
    assert!(match_and_process_assets_path(true, "/assets/portrait-0026.png", &t).is_none());
    assert!(match_and_process_assets_path(true, "/assets/portrait-0025-0009.png", &t).is_none());
    assert!(match_and_process_assets_path(true, "/graphql", &t).is_none());
}

#[test]
fn cache_keys_hold_the_monster_and_the_form() {
    assert_eq!(cache_key("spr_files", 25, &[]), "spr_files|25/[]");
    assert_eq!(cache_key("x", -3, &[1, -2, 300]), "x|-3/[1, -2, 300]");
    assert_eq!(credits_key(AssetCategory::Sprite, 25, &[1]), "credits_Sprite|25/[1]");
    assert_eq!(credits_key(AssetCategory::Portrait, 7, &[]), "credits_Portrait|7/[]");
    assert_eq!(AssetCategory::Portrait.name(), "Portrait");
    assert_eq!(
        local_credits_path(AssetCategory::Sprite, 25, &[1]),
        "spritecollab/sprite/0025/0001/credits.txt"
    );
    assert_eq!(
        local_credits_path(AssetCategory::Portrait, 25, &[]),
        "spritecollab/portrait/0025/credits.txt"
    );
}

#[test]
fn lookups_know_their_paths_and_keys() {
    let all = strings(&["Walk", "Idle"]);
    let path = [1, 0];
    let sprite = FileLookup::Sprite(&all, 25, &path);
    assert_eq!(sprite.path("Walk"), "spritecollab/sprite/0025/0001/0000/Walk-Anim.png");
    assert_eq!(sprite.key(), "spr_files|25/[1, 0]");
    assert_eq!(sprite.all(), &all);
    let portrait = FileLookup::Portrait(&all, 25, &path);
    assert_eq!(portrait.path("Happy"), "spritecollab/portrait/0025/0001/0000/Happy.png");
    assert_eq!(portrait.key(), "prt_files|25/[1, 0]");
    assert_eq!(portrait.do_single_lookup("Happy", true), Some("Happy".to_string()));
    assert_eq!(portrait.do_single_lookup("Happy", false), None);
    assert!(matches!(lookup_answer(all.clone()), CacheBehaviour::Cache(v) if v == all));
}

#[test]
fn only_listed_files_that_exist_are_given() {
    let mut g = Group::named("x");
    for (name, locked) in [("Walk", true), ("Idle", false), ("Sleep", false)] {
        g.sprite_files.insert(name.to_string(), locked);
    }
    for (name, locked) in [("Normal", false), ("Normal^", true), ("Happy", true), ("Sad^", false)] {
        g.portrait_files.insert(name.to_string(), locked);
    }
    let existing = FileLookupCache(strings(&["Sleep", "Walk", "Other", "Normal^", "Happy", "Sad^"]));
    assert_eq!(
        iter_existing_sprite_files(&g.sprite_files, &existing),
        vec![("Walk".to_string(), true), ("Sleep".to_string(), false)]
    );
    assert_eq!(get_existing_sprite_file(&g.sprite_files, &existing, "Walk"), Some(true));
    assert_eq!(get_existing_sprite_file(&g.sprite_files, &existing, "Idle"), None);
    assert_eq!(get_existing_sprite_file(&g.sprite_files, &existing, "Other"), None);
    assert_eq!(
        iter_existing_portrait_files(&g.portrait_files, &existing, false),
        vec![("Happy".to_string(), true)]
    );
    assert_eq!(
        iter_existing_portrait_files(&g.portrait_files, &existing, true),
        vec![("Normal^".to_string(), true), ("Sad^".to_string(), false)]
    );
    assert_eq!(get_existing_portrait_file(&g.portrait_files, &existing, "Normal", true), Some(true));
    assert_eq!(get_existing_portrait_file(&g.portrait_files, &existing, "Normal", false), None);
    assert_eq!(get_existing_portrait_file(&g.portrait_files, &existing, "Happy", false), Some(true));
    assert_eq!(get_existing_portrait_file(&g.portrait_files, &existing, "Happy", true), None);
}

#[test]
fn the_list_of_existing_files_can_be_used_up() {
    let mut cache = FileLookupCache(strings(&["a", "b", "a"]));
    assert_eq!(cache.if_has("a", 1), Some(1));
    assert_eq!(cache.if_has("c", 1), None);
    assert_eq!(cache.take_out_if_has("a", 7), Some(("a".to_string(), 7)));
    assert_eq!(cache.0, strings(&["b", "a"]));
    assert_eq!(cache.take_out_if_has("c", 7), None);
    assert_eq!(cache.0, strings(&["b", "a"]));
    assert_eq!(cache.position("a"), Some(1));
}

#[test]
fn a_form_without_history_has_no_rows() {
    assert!(get_local_credits_file(None).unwrap().is_empty());
    let content = b"2022-05-01 12:00:00\t123\tOLD\tUnknown\tHappy\n".to_vec();
    let rows = get_local_credits_file(Some(&content)).unwrap();
    assert_eq!(rows.len(), 1);
    assert!(rows[0].obsolete);
    assert!(get_local_credits_file(Some(&b"x\n".to_vec())).is_err());
}
