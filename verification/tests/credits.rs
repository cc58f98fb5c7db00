use spritecollab::activities::{Activities, CommitData, Delta, DeltaStatus};
use spritecollab::activity::{Action, Asset, SpritePathInfo};
use spritecollab::credit_lookup::{
    get_credit_id, new_credit_lookup, old_credit_lookup, ActivityRecError, CreditCertainty,
    CREDIT_CONSISTENCY_TIME,
};
use spritecollab::credit_names::read_credit_names;
use spritecollab::credit_row::parse_credit_id;
use spritecollab::error::{CsvError, DataReadError};
use spritecollab::local_credits_file::{
    get_credits, get_credits_until, get_last_credits_old_format, get_latest_credits, parse_items,
    parse_obsolete,
};
use spritecollab::records::{parse_datetime, parse_time};
use spritecollab::repo_tree::{holds_credits, Tree, TreeEntry};
use spritecollab::tracker::Timestamp;

const ROW: &str = "2022-05-01 12:00:00\t123\tfalse\tUnknown\tHappy,Sad\n";

fn tree(files: &[(&str, &str, Option<&str>)]) -> Tree {
    Tree {
        entries: files
            .iter()
            .map(|(path, oid, content)| TreeEntry {
                path: path.to_string(),
                oid: oid.to_string(),
                content: content.map(|c| c.as_bytes().to_vec()),
            })
            .collect(),
    }
}

fn happy(tree: &Tree) -> SpritePathInfo {
    SpritePathInfo::try_from_path(tree, "portrait/0025/0001/Happy.png").unwrap().unwrap()
}

fn certain(r: Result<CreditCertainty, ActivityRecError>) -> (String, bool) {
    let c = r.unwrap();
    let sure = c.certain();
    (c.into_id(), sure)
}

fn pairs(v: Vec<(String, String)>) -> Vec<(String, String)> {
    v
}

#[test]
fn credit_ids_are_stripped_of_mentions() {
    assert_eq!(parse_credit_id("<@!123456>"), "123456");
    assert_eq!(parse_credit_id("<@123456>"), "123456");
    assert_eq!(parse_credit_id("123456"), "123456");
    assert_eq!(parse_credit_id("CHUNSOFT"), "CHUNSOFT");
    assert_eq!(parse_credit_id(""), "");
    assert_eq!(parse_credit_id("by <@!42> and <@!43>"), "42");
    assert_eq!(parse_credit_id("<@!>"), "<@!>");
    assert_eq!(parse_credit_id("<@abc>"), "<@abc>");
}

#[test]
fn dates_are_read_as_utc() {
    assert_eq!(parse_time("1970-01-01 00:00:00"), Some(Timestamp { secs: 0, nanos: 0 }));
    assert_eq!(
        parse_time("2022-05-07 19:29:49"),
        Some(Timestamp { secs: CREDIT_CONSISTENCY_TIME, nanos: 0 })
    );
    assert_eq!(
        parse_time("2022-05-07 19:29:49.250"),
        Some(Timestamp { secs: 1651951789, nanos: 250_000_000 })
    );
    assert_eq!(parse_time("2022-05-07"), None);
    assert_eq!(parse_time("yesterday"), None);
    assert_eq!(parse_time(""), None);
}

#[test]
fn timestamps_are_ordered_by_seconds_then_nanos() {
    let a = Timestamp { secs: 5, nanos: 10 };
    assert!(a.is_before(&Timestamp { secs: 6, nanos: 0 }));
    assert!(a.is_before(&Timestamp { secs: 5, nanos: 11 }));
    assert!(!a.is_before(&a));
    assert!(!a.is_before(&Timestamp { secs: 4, nanos: 999 }));
}

#[test]
fn items_and_flags_of_a_row() {
    assert_eq!(parse_items("Happy,Sad"), vec!["Happy", "Sad"]);
    assert_eq!(parse_items("Happy"), vec!["Happy"]);
    assert_eq!(parse_items(""), vec![""]);
    assert_eq!(parse_items("a,,b,"), vec!["a", "", "b", ""]);
    assert!(parse_obsolete("OLD"));
    assert!(!parse_obsolete("old"));
    assert!(!parse_obsolete(""));
}

#[test]
fn get_credits_reads_rows_with_and_without_license() {
    let rows = get_credits(ROW.as_bytes()).unwrap();
    assert_eq!(rows.len(), 1);
    assert_eq!(rows[0].date, Timestamp { secs: 1651406400, nanos: 0 });
    assert_eq!(rows[0].credit_id, "123");
    assert!(!rows[0].obsolete);
    assert_eq!(rows[0].license, "Unknown");
    assert_eq!(rows[0].items, vec!["Happy", "Sad"]);

    let rows = get_credits(
        "2021-01-01 00:00:00\t<@!77>\tOLD\tCC_BY-NC_4\tIdle\n2021-01-02 00:00:00.5\tabc\t\tPMDCollab_1\tWalk,Idle\n"
            .as_bytes(),
    )
    .unwrap();
    assert_eq!(rows.len(), 2);
    assert_eq!(rows[0].credit_id, "77");
    assert!(rows[0].obsolete);
    assert_eq!(rows[0].license, "CC_BY-NC_4");
    assert_eq!(rows[1].date.nanos, 500_000_000);
    assert_eq!(rows[1].items, vec!["Walk", "Idle"]);

    let rows = get_credits("2021-01-01 00:00:00\t77\tOLD\tIdle,Walk\n".as_bytes()).unwrap();
    assert_eq!(rows[0].license, "Unknown");
    assert_eq!(rows[0].items, vec!["Idle", "Walk"]);
    assert!(rows[0].obsolete);

    assert_eq!(get_credits(b"").unwrap().len(), 0);
}

#[test]
fn get_credits_reports_the_row_that_cannot_be_read() {
    let two_columns = get_credits("2022-01-01 00:00:00\t999\n".as_bytes());
    assert_eq!(two_columns.unwrap_err(), DataReadError::SerdeCsv(CsvError::Deserialize(0)));
    let bad_date = get_credits(
        "2022-01-01 00:00:00\t1\t\tUnknown\tA\nnot a date\t2\t\tUnknown\tB\n".as_bytes(),
    );
    assert_eq!(bad_date.unwrap_err(), DataReadError::SerdeCsv(CsvError::Deserialize(1)));
    let uneven = get_credits(
        "2022-01-01 00:00:00\t1\t\tUnknown\tA\n2022-01-02 00:00:00\t2\t\tB\n".as_bytes(),
    );
    assert!(matches!(uneven.unwrap_err(), DataReadError::SerdeCsv(CsvError::Read(_))));
}

#[test]
fn latest_credits_let_later_rows_overwrite() {
    let text = "2022-01-01 00:00:00\t1\t\tUnknown\tHappy,Sad\n\
                2022-02-01 00:00:00\t2\t\tUnknown\tSad,Angry\n\
                2022-03-01 00:00:00\t3\t\tUnknown\t?\n";
    let all = pairs(get_latest_credits(text.as_bytes()).unwrap());
    assert_eq!(
        all,
        vec![
            ("Happy".to_string(), "1".to_string()),
            ("Sad".to_string(), "2".to_string()),
            ("Angry".to_string(), "2".to_string()),
            ("?".to_string(), "3".to_string()),
        ]
    );
}

#[test]
fn credits_until_stop_at_the_first_later_row() {
    let text = "2022-01-01 00:00:00\t1\t\tUnknown\tHappy,Sad\n\
                2022-02-01 00:00:00\t2\t\tUnknown\tSad\n\
                2022-03-01 00:00:00\t3\t\tUnknown\tHappy\n\
                broken row\n";
    let until = parse_time("2022-02-01 00:00:00").unwrap();
    let some = pairs(get_credits_until(text.as_bytes(), until).unwrap());
    assert_eq!(
        some,
        vec![("Happy".to_string(), "1".to_string()), ("Sad".to_string(), "2".to_string())]
    );
    let before_all = parse_time("2021-01-01 00:00:00").unwrap();
    assert_eq!(get_credits_until(text.as_bytes(), before_all).unwrap().len(), 0);
    let after_all = parse_time("2023-01-01 00:00:00").unwrap();
    assert!(get_credits_until(text.as_bytes(), after_all).is_err());
}

#[test]
fn the_oldest_format_gives_the_last_row() {
    let text = "2021-01-01 00:00:00\t5\n2021-02-01 00:00:00\t<@!999>\n";
    assert_eq!(get_last_credits_old_format(text.as_bytes()).unwrap(), Some("999".to_string()));
    assert_eq!(get_last_credits_old_format(b"").unwrap(), None);
    assert_eq!(
        get_last_credits_old_format("2021-01-01 00:00:00\t5\nbad\t6\n".as_bytes()).unwrap_err(),
        DataReadError::SerdeCsv(CsvError::Deserialize(1))
    );
    assert_eq!(
        get_last_credits_old_format("bad\t5\n2021-02-01 00:00:00\t6\n".as_bytes()).unwrap(),
        Some("6".to_string())
    );
}

#[test]
fn try_from_path_reads_portraits_and_sprites() {
    let t = tree(&[
        ("portrait/0025/0001/Happy.png", "aa", None),
        ("sprite/0025/Walk-Anim.png", "bb", None),
        ("sprite/0025/Walk-Offsets.png", "cc", None),
        ("sprite/0025/AnimData.xml", "dd", None),
    ]);
    let info = happy(&t);
    assert_eq!(info.monster_idx, 25);
    assert_eq!(info.path_to_form, vec![1]);
    assert_eq!(info.base_path, "portrait/0025/0001");
    assert_eq!(info.asset.name(), "Happy");
    match &info.asset {
        Asset::Portrait { file, .. } => {
            assert_eq!(file.file_name, "Happy.png");
            assert_eq!(file.oid, Some("aa".to_string()));
        }
        _ => panic!("a portrait was expected"),
    }
    let info = SpritePathInfo::try_from_path(&t, "sprite/0025/Walk-Anim.png").unwrap().unwrap();
    assert_eq!(info.path_to_form, Vec::<i32>::new());
    assert_eq!(info.base_path, "sprite/0025");
    match &info.asset {
        Asset::Sprite { name, anim_sprite, shadow_sprite, offsets_sprite, anim_xml } => {
            assert_eq!(name, "Walk");
            assert_eq!(anim_sprite.oid, Some("bb".to_string()));
            assert_eq!(shadow_sprite.file_name, "Walk-Shadow.png");
            assert_eq!(shadow_sprite.oid, None);
            assert_eq!(offsets_sprite.file_name, "Walk-Offsets.png");
            assert_eq!(offsets_sprite.oid, Some("cc".to_string()));
            assert_eq!(anim_xml.file_name, "AnimData.xml");
            assert_eq!(anim_xml.oid, Some("dd".to_string()));
        }
        _ => panic!("a sprite was expected"),
    }
    assert_eq!(info.asset.files().len(), 4);
}

#[test]
fn try_from_path_passes_over_other_files() {
    let t = tree(&[]);
    for path in [
        "tracker.json",
        "credit_names.txt",
        "portrait/0025/credits.txt",
        "sprite/0025/Walk-Offsets.png",
        "sprite/0025/Walk-Shadow.png",
        "sprite/0025/AnimData.xml",
        "portrait",
        "portrait/Happy.png",
        "other/0025/Happy.png",
        "",
    ] {
        assert!(SpritePathInfo::try_from_path(&t, path).unwrap().is_none(), "{}", path);
    }
    assert_eq!(
        SpritePathInfo::try_from_path(&t, "portrait/abc/Happy.png").unwrap_err(),
        "portrait/abc/Happy.png"
    );
    assert_eq!(
        SpritePathInfo::try_from_path(&t, "sprite/0025/x/Walk-Anim.png").unwrap_err(),
        "sprite/0025/x/Walk-Anim.png"
    );
}

#[test]
fn a_commit_after_the_cutover_is_credited_by_the_newest_history() {
    let head = tree(&[("portrait/0025/0001/credits.txt", "h", Some(ROW))]);
    let commit = tree(&[]);
    let info = happy(&commit);
    // 2022-05-07T19:29:50Z
    let r = get_credit_id("c0ffee", CREDIT_CONSISTENCY_TIME + 1, &info, &commit, &head);
    assert_eq!(certain(r), ("123".to_string(), true));
}

#[test]
fn a_commit_before_the_cutover_is_credited_by_its_own_history() {
    let commit = tree(&[("portrait/0025/0001/credits.txt", "c", Some(ROW))]);
    let head = tree(&[("portrait/0025/0001/credits.txt", "h", Some("2022-05-01 12:00:00\t777\tfalse\tUnknown\tHappy\n"))]);
    let info = happy(&commit);
    // 2022-01-01T00:00:00Z
    let r = get_credit_id("c0ffee", 1640995200, &info, &commit, &head);
    assert_eq!(certain(r), ("123".to_string(), true));
    // The cutover itself still belongs to the old flow.
    let r = get_credit_id("c0ffee", CREDIT_CONSISTENCY_TIME, &info, &commit, &head);
    assert_eq!(certain(r), ("123".to_string(), true));
}

#[test]
fn a_history_in_the_oldest_format_gives_an_uncertain_author() {
    let commit = tree(&[("portrait/0025/0001/credits.txt", "c", Some("2022-01-01 00:00:00\t999\n"))]);
    let info = happy(&commit);
    let r = get_credit_id("c0ffee", 1640995200, &info, &commit, &tree(&[]));
    assert_eq!(certain(r), ("999".to_string(), false));
}

#[test]
fn the_old_flow_falls_back_to_the_question_mark() {
    let text = "2022-01-01 00:00:00\t5\t\tUnknown\tSad\n2022-01-02 00:00:00\t6\t\tUnknown\t?\n";
    let commit = tree(&[("portrait/0025/0001/credits.txt", "c", Some(text))]);
    let info = happy(&commit);
    assert_eq!(certain(old_credit_lookup("c0ffee", &info, &commit)), ("6".to_string(), false));
    let text = "2022-01-01 00:00:00\t5\t\tUnknown\tSad\n";
    let commit = tree(&[("portrait/0025/0001/credits.txt", "c", Some(text))]);
    match old_credit_lookup("c0ffee", &info, &commit) {
        Err(ActivityRecError::MissingCredits(id, boxed)) => {
            assert_eq!(id, "c0ffee");
            assert_eq!(boxed.monster_idx, 25);
            assert_eq!(boxed.path_to_form, vec![1]);
        }
        other => panic!("unexpected: {:?}", other),
    }
    assert!(matches!(
        old_credit_lookup("c0ffee", &info, &tree(&[])),
        Err(ActivityRecError::GitError(_))
    ));
    let uneven = "2022-01-01 00:00:00\t5\t\tUnknown\tSad\n2022-01-02 00:00:00\t6\n";
    let commit = tree(&[("portrait/0025/0001/credits.txt", "c", Some(uneven))]);
    assert!(matches!(
        old_credit_lookup("c0ffee", &info, &commit),
        Err(ActivityRecError::DataReadError(DataReadError::SerdeCsv(CsvError::Read(_))))
    ));
}

#[test]
fn the_two_exceptions_are_credited_by_hand() {
    let t = tree(&[]);
    let info = SpritePathInfo::try_from_path(&t, "portrait/0222/0001/Normal.png").unwrap().unwrap();
    let r = old_credit_lookup("99a41c3c379300aefa42f95568b658c3b9986057", &info, &t);
    assert_eq!(certain(r), ("356635814668664832".to_string(), true));
    let info = SpritePathInfo::try_from_path(&t, "portrait/0150/0002/0001/Normal.png").unwrap().unwrap();
    let r = old_credit_lookup("366d2dbceb2736bd5316c9e492ddfa6c7cdc8fab", &info, &t);
    assert_eq!(certain(r), ("593113130213572610".to_string(), true));
    // Another form of the same commit is no exception.
    let info = SpritePathInfo::try_from_path(&t, "portrait/0150/0002/Normal.png").unwrap().unwrap();
    assert!(old_credit_lookup("366d2dbceb2736bd5316c9e492ddfa6c7cdc8fab", &info, &t).is_err());
}

#[test]
fn the_new_flow_walks_down_its_fallbacks() {
    let commit_time = parse_time("2022-06-01 00:00:00").unwrap().secs;
    let info = happy(&tree(&[]));
    // The author at the time of the commit, not a later one.
    let head = tree(&[(
        "portrait/0025/0001/credits.txt",
        "h",
        Some("2022-05-20 00:00:00\t1\t\tUnknown\tHappy\n2022-07-01 00:00:00\t2\t\tUnknown\tHappy\n"),
    )]);
    let r = new_credit_lookup("c0ffee", &info, &tree(&[]), commit_time, &head);
    assert_eq!(certain(r), ("1".to_string(), true));
    // Only `?` at the time of the commit.
    let head = tree(&[(
        "portrait/0025/0001/credits.txt",
        "h",
        Some("2022-05-20 00:00:00\t1\t\tUnknown\t?\n2022-07-01 00:00:00\t2\t\tUnknown\tHappy\n"),
    )]);
    let r = new_credit_lookup("c0ffee", &info, &tree(&[]), commit_time, &head);
    assert_eq!(certain(r), ("1".to_string(), false));
    // Nothing at the time of the commit, nothing in the commit: the newest author, uncertain.
    let head = tree(&[(
        "portrait/0025/0001/credits.txt",
        "h",
        Some("2022-05-20 00:00:00\t1\t\tUnknown\tSad\n2022-07-01 00:00:00\t2\t\tUnknown\tHappy\n"),
    )]);
    let r = new_credit_lookup("c0ffee", &info, &tree(&[]), commit_time, &head);
    assert_eq!(certain(r), ("2".to_string(), false));
    // Nothing at the time of the commit, but the commit's own history knows.
    let commit = tree(&[(
        "portrait/0025/0001/credits.txt",
        "c",
        Some("2022-05-20 00:00:00\t9\t\tUnknown\tHappy\n"),
    )]);
    let r = new_credit_lookup("c0ffee", &info, &commit, commit_time, &head);
    assert_eq!(certain(r), ("9".to_string(), true));
    // No history at the newest commit: the commit's own history decides.
    let r = new_credit_lookup("c0ffee", &info, &commit, commit_time, &tree(&[]));
    assert_eq!(certain(r), ("9".to_string(), true));
    // Nothing anywhere.
    let head = tree(&[(
        "portrait/0025/0001/credits.txt",
        "h",
        Some("2022-05-20 00:00:00\t1\t\tUnknown\tSad\n"),
    )]);
    assert!(matches!(
        new_credit_lookup("c0ffee", &info, &tree(&[]), commit_time, &head),
        Err(ActivityRecError::MissingCredits(_, _))
    ));
    // A history that cannot be read at the newest commit.
    let head = tree(&[("portrait/0025/0001/credits.txt", "h", Some("x\ty\n"))]);
    assert!(matches!(
        new_credit_lookup("c0ffee", &info, &commit, commit_time, &head),
        Err(ActivityRecError::MissingCredits(_, _))
    ));
}

#[test]
fn activities_of_a_commit() {
    let names = "Discord\tName\tContact\n<@!123>\tAnn\t\n";
    let commit_tree = tree(&[
        ("credit_names.txt", "n", Some(names)),
        ("portrait/0025/0001/Happy.png", "aa", None),
        ("portrait/0025/0001/credits.txt", "cc", Some(ROW)),
        ("portrait/0026/Sad.png", "ab", None),
        ("portrait/0026/credits.txt", "cd", Some("2022-05-01 12:00:00\t7\t\tUnknown\t?\n")),
    ]);
    let head_tree = tree(&[]);
    let commit = CommitData { id: "c0ffee".to_string(), time: 1640995200, msg: "msg".to_string() };
    let deltas = vec![
        Delta { status: DeltaStatus::Added, old_path: Some("portrait/0025/0001/Happy.png".to_string()), new_path: None },
        Delta { status: DeltaStatus::Modified, old_path: Some("tracker.json".to_string()), new_path: None },
        Delta { status: DeltaStatus::Deleted, old_path: Some("portrait/0025/0001/Angry.png".to_string()), new_path: None },
        Delta { status: DeltaStatus::Modified, old_path: Some("portrait/0026/Sad.png".to_string()), new_path: None },
        Delta {
            status: DeltaStatus::Renamed,
            old_path: Some("portrait/0025/0001/Happy.png".to_string()),
            new_path: Some("portrait/0030/0002/Happy.png".to_string()),
        },
    ];
    let acts = Activities::load(commit, &commit_tree, &head_tree, &deltas).unwrap();
    assert_eq!(acts.c_oid(), "c0ffee");
    assert_eq!(acts.c_time(), 1640995200);
    assert_eq!(acts.c_msg(), "msg");
    assert_eq!(acts.credit_names().get("123").unwrap().name, Some("Ann".to_string()));
    let list = acts.acts();
    assert_eq!(list.len(), 4);
    assert!(matches!(list[0].action(), Action::Add));
    assert_eq!(list[0].monster_idx(), 25);
    assert_eq!(list[0].path_to_form(), &vec![1]);
    assert_eq!(list[0].credit_id(), Some(&"123".to_string()));
    assert!(!list[0].author_uncertain());
    assert!(list[0].action().has_content());
    assert!(matches!(list[1].action(), Action::Remove));
    assert_eq!(list[1].asset().name(), "Angry");
    assert_eq!(list[1].credit_id(), None);
    assert!(!list[1].author_uncertain());
    assert!(!list[1].action().has_content());
    assert!(matches!(list[2].action(), Action::Update));
    assert_eq!(list[2].credit_id(), Some(&"7".to_string()));
    assert!(list[2].author_uncertain());
    match list[3].action() {
        Action::MoveAndUpdate { new_monster_idx, new_path_to_form } => {
            assert_eq!(*new_monster_idx, 30);
            assert_eq!(new_path_to_form, &vec![2]);
        }
        other => panic!("unexpected: {:?}", other),
    }
    assert_eq!(list[3].monster_idx(), 25);
    let exported = acts.export();
    assert_eq!(exported.len(), 4);
    assert_eq!(exported[2].commit.id, "c0ffee");
    assert_eq!(exported[2].activity.credit_id(), Some(&"7".to_string()));
}

#[test]
fn activities_fail_on_what_cannot_be_recorded() {
    let names = "Discord\tName\tContact\n";
    let t = tree(&[
        ("credit_names.txt", "n", Some(names)),
        ("portrait/0025/credits.txt", "cc", Some(ROW)),
    ]);
    let commit = || CommitData { id: "c0ffee".to_string(), time: 1640995200, msg: String::new() };
    let load = |deltas: Vec<Delta>| Activities::load(commit(), &t, &tree(&[]), &deltas);
    let happy = Some("portrait/0025/Happy.png".to_string());
    assert!(matches!(
        load(vec![Delta { status: DeltaStatus::Added, old_path: None, new_path: None }]),
        Err(ActivityRecError::MissingDeltaMetadata(_, what)) if what == "old_file().path()"
    ));
    assert!(matches!(
        load(vec![Delta { status: DeltaStatus::Renamed, old_path: happy.clone(), new_path: None }]),
        Err(ActivityRecError::MissingDeltaMetadata(_, what)) if what == "new_file().path()"
    ));
    assert!(matches!(
        load(vec![Delta {
            status: DeltaStatus::Renamed,
            old_path: happy.clone(),
            new_path: Some("sprite/0025/Walk-Anim.png".to_string())
        }]),
        Err(ActivityRecError::InvalidMove(a, b)) if a == "portrait/0025/Happy.png" && b == "sprite/0025/Walk-Anim.png"
    ));
    assert!(matches!(
        load(vec![Delta {
            status: DeltaStatus::Renamed,
            old_path: happy.clone(),
            new_path: Some("README.md".to_string())
        }]),
        Err(ActivityRecError::InvalidMove(_, _))
    ));
    assert!(matches!(
        load(vec![Delta { status: DeltaStatus::Typechange, old_path: happy.clone(), new_path: None }]),
        Err(ActivityRecError::UnprocessableDelta(id, p)) if id == "c0ffee" && p == "portrait/0025/Happy.png"
    ));
    assert!(matches!(
        load(vec![Delta {
            status: DeltaStatus::Added,
            old_path: Some("portrait/x/Happy.png".to_string()),
            new_path: None
        }]),
        Err(ActivityRecError::InvalidNumberInPath(p)) if p == "portrait/x/Happy.png"
    ));
    assert!(matches!(
        load(vec![Delta {
            status: DeltaStatus::Added,
            old_path: Some("portrait/0025/Dizzy.png".to_string()),
            new_path: None
        }]),
        Err(ActivityRecError::MissingCredits(_, _))
    ));
    assert!(matches!(
        Activities::load(commit(), &tree(&[]), &tree(&[]), &vec![]),
        Err(ActivityRecError::GitError(_))
    ));
    assert!(load(vec![]).unwrap().acts().is_empty());
}

#[test]
fn credit_names_are_read_by_their_header() {
    let text = "Discord\tName\tContact\n<@!1>\tAnn\thttps://ann\n2\t\t\nCHUNSOFT\tChunsoft\t\n";
    let names = read_credit_names(text.as_bytes()).unwrap();
    assert_eq!(names.iter().len(), 3);
    let ann = names.get("1").unwrap();
    assert_eq!(ann.name, Some("Ann".to_string()));
    assert_eq!(ann.contact, Some("https://ann".to_string()));
    let two = names.get("2").unwrap();
    assert_eq!((two.name.clone(), two.contact.clone()), (None, None));
    assert!(names.get("3").is_none());
    assert!(names.get("<@!1>").is_none());

    let swapped = "Contact\tDiscord\tExtra\tName\nmail\t9\tx\tZed\n";
    let names = read_credit_names(swapped.as_bytes()).unwrap();
    let zed = names.get("9").unwrap();
    assert_eq!(zed.name, Some("Zed".to_string()));
    assert_eq!(zed.contact, Some("mail".to_string()));

    assert_eq!(read_credit_names(b"").unwrap().iter().len(), 0);
    assert_eq!(read_credit_names(b"Discord\tName\tContact\n").unwrap().iter().len(), 0);
}

#[test]
fn credit_names_reject_duplicates_and_broken_files() {
    let dup = "Discord\tName\tContact\n1\tAnn\t\n2\tBob\t\n<@!1>\tCid\t\n";
    assert_eq!(
        read_credit_names(dup.as_bytes()).unwrap_err(),
        DataReadError::CreditsDuplicateCreditId("1".to_string())
    );
    let no_id = "Name\tContact\nAnn\tx\n";
    assert_eq!(
        read_credit_names(no_id.as_bytes()).unwrap_err(),
        DataReadError::SerdeCsv(CsvError::Deserialize(0))
    );
    let twice = "Discord\tName\tName\n1\tAnn\tAnn\n";
    assert_eq!(
        read_credit_names(twice.as_bytes()).unwrap_err(),
        DataReadError::SerdeCsv(CsvError::Deserialize(0))
    );
    let uneven = "Discord\tName\tContact\n1\tAnn\t\n2\tBob\n";
    assert!(matches!(
        read_credit_names(uneven.as_bytes()).unwrap_err(),
        DataReadError::SerdeCsv(CsvError::Read(_))
    ));
}

#[test]
fn credit_names_are_searched_by_id_and_name() {
    let text = "Discord\tName\tContact\n100\tAudino\t\n200\tBob\t\n300\tAudino\t\n";
    let names = read_credit_names(text.as_bytes()).unwrap();
    let found: Vec<&str> = names.fuzzy_find("audino").iter().map(|r| r.credit_id.as_str()).collect();
    assert_eq!(found, vec!["100", "300"]);
    let found: Vec<&str> = names.fuzzy_find("200").iter().map(|r| r.credit_id.as_str()).collect();
    assert_eq!(found, vec!["200"]);
    assert!(names.fuzzy_find("zzz").is_empty());
    let index = names.search_index();
    assert_eq!(
        index,
        vec![
            ("100".to_string(), vec![0]),
            ("200".to_string(), vec![1]),
            ("300".to_string(), vec![2]),
            ("Audino".to_string(), vec![0, 2]),
            ("Bob".to_string(), vec![1]),
        ]
    );
}

#[test]
fn the_date_of_a_tracker_entry_may_be_empty() {
    assert_eq!(parse_datetime(""), Ok(None));
    assert_eq!(
        parse_datetime("2022-05-01 12:00:00.25"),
        Ok(Some(Timestamp { secs: 1651406400, nanos: 250_000_000 }))
    );
    assert_eq!(parse_datetime("yesterday"), Err(()));
    assert_eq!(parse_datetime(" "), Err(()));
}

#[test]
fn the_content_of_credit_files_is_needed() {
    assert!(holds_credits("credit_names.txt"));
    assert!(holds_credits("portrait/0001/credits.txt"));
    assert!(holds_credits("sprite/0001/0000/0001/credits.txt"));
    assert!(!holds_credits("credits.txt"));
    assert!(!holds_credits("sprite/0001/Walk-Anim.png"));
    assert!(!holds_credits("sprite/credit_names.txt"));
    assert!(!holds_credits("sprite/0001/credits.txt.bak"));
    assert!(!holds_credits(""));
}
