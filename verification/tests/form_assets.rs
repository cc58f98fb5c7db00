use spritecollab::credit_names::{read_credit_names, CreditNames};
use spritecollab::error::{CsvError, DataReadError};
use spritecollab::form_assets::{
    history_of, resolve_credit, MonsterFormPortraits, MonsterFormSprites, SpriteUnion,
};
use spritecollab::fs_check::FileLookupCache;
use spritecollab::monster::{MonsterForm, QueryError};
use spritecollab::schema::{KnownLicenseType, License, Phase};
use spritecollab::tracker::{Group, Timestamp};

const ASSETS: &str = "https://assets.example";
const SERVER: &str = "https://api.example";

fn listed(names: &[(&str, bool)]) -> indexmap::IndexMap<String, bool> {
    names.iter().map(|(n, l)| (n.to_string(), *l)).collect()
}

fn there(names: &[&str]) -> FileLookupCache {
    FileLookupCache(names.iter().map(|n| n.to_string()).collect())
}

fn copies(pairs: &[(&str, &str)]) -> Vec<(String, String)> {
    pairs.iter().map(|(a, b)| (a.to_string(), b.to_string())).collect()
}

fn artists() -> CreditNames {
    read_credit_names(
        "Discord\tName\tContact\n1001\tAnn\tann@example.org\n1002\tBert\t\nABSENT\t\t\n".as_bytes(),
    )
    .unwrap()
}

fn with_portraits(names: &[(&str, bool)]) -> Group {
    let mut g = Group::named("Alola");
    g.portrait_files = listed(names);
    g
}

fn with_sprites(names: &[(&str, bool)]) -> Group {
    let mut g = Group::named("Alola");
    g.sprite_files = listed(names);
    g
}

#[test]
fn the_state_of_the_portraits_is_read_from_the_group() {
    let mut g = Group::named("Alola");
    g.portrait_required = true;
    g.portrait_complete = 2;
    g.modreward = true;
    g.portrait_bounty.insert(1, 10);
    g.portrait_bounty.insert(5, 70);
    g.portrait_modified = Some(Timestamp { secs: 1_600_000_000, nanos: 5 });
    let p = MonsterFormPortraits(&g, 19, &[1]);
    assert!(p.required());
    assert_eq!(p.phase(), Phase::Full);
    assert_eq!(p.phase_raw(), 2);
    assert_eq!(p.modified_date(), Some(Timestamp { secs: 1_600_000_000, nanos: 5 }));
    let bounty = p.bounty();
    assert!(bounty.modreward);
    assert_eq!(bounty.incomplete, None);
    assert_eq!(bounty.exists, Some(10));
    assert_eq!(bounty.full, None);
    assert_eq!(bounty.other.len(), 1);
    assert_eq!((bounty.other[0].phase, bounty.other[0].bounty), (5, 70));
    let s = MonsterFormSprites(&g, 19, &[1]);
    assert!(!s.required());
    assert_eq!(s.phase(), Phase::Incomplete);
    assert_eq!(s.phase_raw(), 0);
    assert_eq!(s.modified_date(), None);
    assert!(s.bounty().other.is_empty());
}

#[test]
fn a_phase_beyond_32_bits_is_cut() {
    let mut g = Group::named("");
    g.sprite_complete = (1i64 << 32) + 7;
    g.portrait_complete = -1;
    assert_eq!(MonsterFormSprites(&g, 1, &[]).phase_raw(), 7);
    assert_eq!(MonsterFormSprites(&g, 1, &[]).phase(), Phase::Unknown);
    assert_eq!(MonsterFormPortraits(&g, 1, &[]).phase_raw(), -1);
    assert_eq!(MonsterFormPortraits(&g, 1, &[]).phase(), Phase::Unknown);
}

#[test]
fn credits_are_looked_up_by_the_bare_id() {
    let names = artists();
    let c = resolve_credit(&names, "<@!1001>").unwrap();
    assert_eq!(c.id, "1001");
    assert_eq!(c.name, Some("Ann".to_string()));
    assert_eq!(c.contact, Some("ann@example.org".to_string()));
    let c = resolve_credit(&names, "ABSENT").unwrap();
    assert_eq!(c.id, "ABSENT");
    assert_eq!(c.name, None);
    assert_eq!(
        resolve_credit(&names, "<@77>").unwrap_err(),
        QueryError::UnknownCredit("77".to_string())
    );
}

#[test]
fn the_primary_credit_is_nobody_where_the_id_is_empty() {
    let names = artists();
    let mut g = Group::named("");
    assert!(MonsterFormPortraits(&g, 1, &[]).credit_primary(&names).unwrap().is_none());
    assert!(MonsterFormSprites(&g, 1, &[]).credit_primary(&names).unwrap().is_none());
    g.portrait_credit.primary = "<@1002>".to_string();
    g.sprite_credit.primary = "nobody".to_string();
    let c = MonsterFormPortraits(&g, 1, &[]).credit_primary(&names).unwrap().unwrap();
    assert_eq!(c.id, "1002");
    assert_eq!(c.name, Some("Bert".to_string()));
    assert_eq!(c.contact, None);
    assert_eq!(
        MonsterFormSprites(&g, 1, &[]).credit_primary(&names).unwrap_err(),
        QueryError::UnknownCredit("nobody".to_string())
    );
}

#[test]
fn the_other_credits_come_in_the_order_of_the_list() {
    let names = artists();
    let mut g = Group::named("");
    g.portrait_credit.secondary = vec!["1002".to_string(), "<@!1001>".to_string()];
    g.sprite_credit.secondary =
        vec!["1001".to_string(), "gone".to_string(), "also gone".to_string()];
    let found = MonsterFormPortraits(&g, 1, &[]).credit_secondary(&names).unwrap();
    let ids: Vec<&str> = found.iter().map(|c| c.id.as_str()).collect();
    assert_eq!(ids, vec!["1002", "1001"]);
    assert_eq!(
        MonsterFormSprites(&g, 1, &[]).credit_secondary(&names).unwrap_err(),
        QueryError::UnknownCredit("gone".to_string())
    );
    assert!(MonsterFormSprites(&g, 1, &[]).credit_secondary(&artists()).is_err());
    g.sprite_credit.secondary.clear();
    assert!(MonsterFormSprites(&g, 1, &[]).credit_secondary(&names).unwrap().is_empty());
}

#[test]
fn sheets_and_credit_texts_are_served_by_this_server() {
    let g = with_sprites(&[("Walk", false)]);
    let p = MonsterFormPortraits(&g, 25, &[0, 1]);
    assert_eq!(p.sheet_url(SERVER), "https://api.example/assets/portrait-0025-0000-0001.png");
    assert_eq!(
        p.recolor_sheet_url(SERVER),
        "https://api.example/assets/portrait_recolor-0025.png"
    );
    assert_eq!(
        p.history_url(SERVER),
        Some("https://api.example/assets/portrait-credits-0025-0000-0001.txt".to_string())
    );
    let s = MonsterFormSprites(&g, 25, &[0, 1]);
    assert_eq!(
        s.history_url(SERVER),
        Some("https://api.example/assets/sprite-credits-0025-0000-0001.txt".to_string())
    );
    assert_eq!(
        s.zip_url(SERVER),
        Some("https://api.example/assets/0025/0000/0001/sprites.zip".to_string())
    );
    assert_eq!(
        s.recolor_sheet_url(SERVER),
        Some("https://api.example/assets/sprite_recolor-0025-0000-0001.png".to_string())
    );
    assert_eq!(
        s.anim_data_xml(ASSETS),
        Some("https://assets.example/sprite/0025/0000/0001/AnimData.xml".to_string())
    );
}

#[test]
fn a_form_without_sprites_has_no_sprite_addresses() {
    let g = with_portraits(&[("Normal", false)]);
    let s = MonsterFormSprites(&g, 25, &[]);
    assert!(!s.sprites_available());
    assert_eq!(s.zip_url(SERVER), None);
    assert_eq!(s.recolor_sheet_url(SERVER), None);
    assert_eq!(s.anim_data_xml(ASSETS), None);
    assert!(s.actions(&there(&["Walk"]), &copies(&[("Idle", "Walk")]), ASSETS).is_empty());
    assert!(s.action(&there(&["Walk"]), &copies(&[("Idle", "Walk")]), "Idle", ASSETS).is_none());
    assert!(s.action(&there(&["Walk"]), &copies(&[]), "Walk", ASSETS).is_none());
    assert_eq!(
        s.history_url(SERVER),
        Some("https://api.example/assets/sprite-credits-0025.txt".to_string())
    );
}

#[test]
fn listed_portraits_that_are_there_are_shown_in_order() {
    let g = with_portraits(&[
        ("Normal", false),
        ("Happy^", false),
        ("Sad", true),
        ("happy", false),
        ("Normal^", true),
        ("Angry", false),
    ]);
    let p = MonsterFormPortraits(&g, 7, &[2]);
    let files = there(&["Angry", "Normal^", "Normal", "happy", "Dizzy", "Dizzy^"]);
    let shown = p.emotions(&files, ASSETS);
    let seen: Vec<(&str, bool, &str)> =
        shown.iter().map(|p| (p.emotion.as_str(), p.locked, p.url.as_str())).collect();
    assert_eq!(
        seen,
        vec![
            ("Normal", false, "https://assets.example/portrait/0007/0002/Normal.png"),
            ("happy", false, "https://assets.example/portrait/0007/0002/Happy.png"),
            ("Angry", false, "https://assets.example/portrait/0007/0002/Angry.png"),
        ]
    );
    let shown = p.emotions_flipped(&files, ASSETS);
    let seen: Vec<(&str, bool, &str)> =
        shown.iter().map(|p| (p.emotion.as_str(), p.locked, p.url.as_str())).collect();
    assert_eq!(
        seen,
        vec![("Normal^", true, "https://assets.example/portrait/0007/0002/Normal^.png")]
    );
    assert!(p.emotions(&there(&[]), ASSETS).is_empty());
}

#[test]
fn a_single_portrait_is_shown_if_listed_and_there() {
    let g = with_portraits(&[("Normal", false), ("Sad", true), ("Sad^", false), ("Happy^", true)]);
    let p = MonsterFormPortraits(&g, 7, &[]);
    let files = there(&["Sad", "Happy^", "Angry"]);
    let sad = p.emotion(&files, "Sad", ASSETS).unwrap();
    assert_eq!(sad.emotion, "Sad");
    assert!(sad.locked);
    assert_eq!(sad.url, "https://assets.example/portrait/0007/Sad.png");
    assert!(p.emotion(&files, "Normal", ASSETS).is_none());
    assert!(p.emotion(&files, "Angry", ASSETS).is_none());
    assert!(p.emotion(&files, "Happy", ASSETS).is_none());
    let happy = p.emotion_flipped(&files, "Happy", ASSETS).unwrap();
    assert_eq!(happy.emotion, "Happy");
    assert!(happy.locked);
    assert_eq!(happy.url, "https://assets.example/portrait/0007/Happy.png");
    assert!(p.emotion_flipped(&files, "Sad", ASSETS).is_none());
    assert!(p.emotion_flipped(&files, "Angry", ASSETS).is_none());
}

#[test]
fn the_preview_is_normal_or_the_first_name_in_the_alphabet() {
    let g = with_portraits(&[("Sad", false), ("Normal", true), ("Angry", false)]);
    let p = MonsterFormPortraits(&g, 7, &[0, 1]).preview_emotion(ASSETS).unwrap();
    assert_eq!(p.emotion, "Normal");
    assert!(p.locked);
    assert_eq!(p.url, "https://assets.example/portrait/0007/0000/0001/Normal.png");

    let g = with_portraits(&[("Sad", false), ("angry", false), ("Happy", true), ("Worried", false)]);
    let p = MonsterFormPortraits(&g, 7, &[]).preview_emotion(ASSETS).unwrap();
    assert_eq!(p.emotion, "Happy");
    assert!(p.locked);
    assert_eq!(p.url, "https://assets.example/portrait/0007/Happy.png");

    let g = with_portraits(&[("Sad", false), ("Sa", true), ("Sad^", false)]);
    let p = MonsterFormPortraits(&g, 7, &[]).preview_emotion(ASSETS).unwrap();
    assert_eq!(p.emotion, "Sa");

    let g = with_portraits(&[("normal", false)]);
    let p = MonsterFormPortraits(&g, 7, &[]).preview_emotion(ASSETS).unwrap();
    assert_eq!(p.emotion, "normal");
    assert_eq!(p.url, "https://assets.example/portrait/0007/Normal.png");

    let g = with_portraits(&[]);
    assert!(MonsterFormPortraits(&g, 7, &[]).preview_emotion(ASSETS).is_none());
}

#[test]
fn a_sprite_has_three_images() {
    let g = with_sprites(&[("walk", false)]);
    let s = MonsterFormSprites(&g, 4, &[0, 0, 2]).process_sprite_action("walk", true, ASSETS);
    assert_eq!(s.action, "walk");
    assert!(s.locked);
    assert_eq!(s.anim_url, "https://assets.example/sprite/0004/0000/0000/0002/Walk-Anim.png");
    assert_eq!(s.offsets_url, "https://assets.example/sprite/0004/0000/0000/0002/Walk-Offsets.png");
    assert_eq!(s.shadows_url, "https://assets.example/sprite/0004/0000/0000/0002/Walk-Shadow.png");
}

fn brief(u: &SpriteUnion) -> (String, bool, String) {
    match u {
        SpriteUnion::Sprite(s) => (s.action.clone(), s.locked, s.anim_url.clone()),
        SpriteUnion::CopyOf(c) => (c.action.clone(), c.locked, format!("copy of {}", c.copy_of)),
    }
}

#[test]
fn listed_actions_are_sprites_or_copies() {
    let g = with_sprites(&[
        ("Walk", false),
        ("Idle", true),
        ("Sleep", false),
        ("Hop", true),
        ("Attack", false),
    ]);
    let s = MonsterFormSprites(&g, 4, &[]);
    let files = there(&["Attack", "Walk", "Hop", "Swing"]);
    let named = copies(&[("Hop", "Walk"), ("Idle", "Sleep"), ("Strike", "Attack")]);
    let shown: Vec<(String, bool, String)> =
        s.actions(&files, &named, ASSETS).iter().map(brief).collect();
    assert_eq!(
        shown,
        vec![
            ("Walk".to_string(), false, "https://assets.example/sprite/0004/Walk-Anim.png".to_string()),
            ("Idle".to_string(), true, "copy of Sleep".to_string()),
            ("Hop".to_string(), true, "copy of Walk".to_string()),
            ("Attack".to_string(), false, "https://assets.example/sprite/0004/Attack-Anim.png".to_string()),
        ]
    );
    let none: Vec<(String, bool, String)> =
        s.actions(&there(&[]), &copies(&[]), ASSETS).iter().map(brief).collect();
    assert!(none.is_empty());
}

#[test]
fn a_single_action_is_a_copy_even_where_it_is_not_listed() {
    let g = with_sprites(&[("Walk", false), ("Idle", true), ("Sleep", false)]);
    let s = MonsterFormSprites(&g, 4, &[1]);
    let files = there(&["Walk", "Swing"]);
    let named = copies(&[("Idle", "Sleep"), ("Strike", "Attack")]);
    assert_eq!(
        brief(&s.action(&files, &named, "Idle", ASSETS).unwrap()),
        ("Idle".to_string(), true, "copy of Sleep".to_string())
    );
    assert_eq!(
        brief(&s.action(&files, &named, "Strike", ASSETS).unwrap()),
        ("Strike".to_string(), false, "copy of Attack".to_string())
    );
    assert_eq!(
        brief(&s.action(&files, &named, "Walk", ASSETS).unwrap()),
        ("Walk".to_string(), false, "https://assets.example/sprite/0004/0001/Walk-Anim.png".to_string())
    );
    assert!(s.action(&files, &named, "Sleep", ASSETS).is_none());
    assert!(s.action(&files, &named, "Swing", ASSETS).is_none());
    assert!(s.action(&files, &named, "walk", ASSETS).is_none());
}

#[test]
fn the_history_has_one_entry_for_each_row() {
    let names = artists();
    let text = "2021-01-01 00:00:00\t<@!1001>\tOLD\tCC_BY-NC_4\tIdle\n\
                2021-01-02 00:00:00\t\t\tMy Own License\tWalk,Idle\n\
                2021-01-03 00:00:00\tABSENT\t\tPMDCollab_2\tHop\n"
        .as_bytes()
        .to_vec();
    let entries = history_of(&names, Some(&text)).unwrap();
    assert_eq!(entries.len(), 3);
    assert_eq!(entries[0].credit().unwrap().id, "1001");
    assert_eq!(entries[0].credit().unwrap().name, Some("Ann".to_string()));
    assert_eq!(entries[0].modified_date(), Timestamp { secs: 1609459200, nanos: 0 });
    assert_eq!(entries[0].modifications(), vec!["Idle"]);
    assert!(entries[0].obsolete());
    assert!(matches!(
        entries[0].license(),
        License::KnownLicense(k) if k.license == KnownLicenseType::CcByNc4
    ));
    assert!(entries[1].credit().is_none());
    assert_eq!(entries[1].modifications(), vec!["Walk", "Idle"]);
    assert!(!entries[1].obsolete());
    assert!(matches!(entries[1].license(), License::Other(o) if o.name == "My Own License"));
    assert_eq!(entries[2].credit().unwrap().id, "ABSENT");
    assert_eq!(entries[2].credit().unwrap().name, None);
    assert!(matches!(
        entries[2].license(),
        License::KnownLicense(k) if k.license == KnownLicenseType::PMDCollab2
    ));
}

#[test]
fn a_form_without_a_history_has_an_empty_one() {
    let names = artists();
    let g = Group::named("");
    assert!(history_of(&names, None).unwrap().is_empty());
    assert!(MonsterFormPortraits(&g, 1, &[]).history(&names, None).unwrap().is_empty());
    assert!(MonsterFormSprites(&g, 1, &[]).history(&names, Some(&Vec::new())).unwrap().is_empty());
}

#[test]
fn a_history_fails_on_a_broken_row_or_an_unknown_author() {
    let names = artists();
    let g = Group::named("");
    let broken = b"only\ttwo\n".to_vec();
    assert_eq!(
        MonsterFormSprites(&g, 1, &[]).history(&names, Some(&broken)).unwrap_err(),
        QueryError::DataRead(DataReadError::SerdeCsv(CsvError::Deserialize(0)))
    );
    let unknown = "2021-01-01 00:00:00\t1001\t\tUnknown\tIdle\n\
                   2021-01-02 00:00:00\t<@55>\t\tUnknown\tWalk\n\
                   2021-01-03 00:00:00\t66\t\tUnknown\tWalk\n"
        .as_bytes()
        .to_vec();
    assert_eq!(
        MonsterFormPortraits(&g, 1, &[]).history(&names, Some(&unknown)).unwrap_err(),
        QueryError::UnknownCredit("55".to_string())
    );
    let late_break = "2021-01-01 00:00:00\tnobody\t\tUnknown\tIdle\nbroken\n".as_bytes().to_vec();
    assert!(matches!(
        history_of(&names, Some(&late_break)).unwrap_err(),
        QueryError::DataRead(_)
    ));
}

#[test]
fn a_form_hands_out_its_portraits_and_sprites() {
    let mut g = with_sprites(&[("Walk", false)]);
    g.portrait_required = true;
    let form = MonsterForm { id: 9, form_id: vec![0, 1], name_path: vec![], data: &g };
    let p = form.portraits();
    assert!(p.required());
    assert_eq!((p.1, p.2), (9, &[0, 1][..]));
    let s = form.sprites();
    assert!(s.sprites_available());
    assert_eq!(
        s.zip_url(SERVER),
        Some("https://api.example/assets/0009/0000/0001/sprites.zip".to_string())
    );
}
