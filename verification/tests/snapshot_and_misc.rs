use spritecollab::anim_data::{Anim, AnimDataXml, Anims};
use spritecollab::cache::{
    after_lookup, after_produce, cached_may_fail_chain, text_to_store, AfterLookup, CacheBehaviour,
};
use spritecollab::config::Config;
use spritecollab::credit_names::{read_credit_names, CreditNames};
use spritecollab::datafiles::{forms_to_check, try_read_in_anim_data_xml, FormCheck};
use spritecollab::error::DataReadError;
use spritecollab::local_credits_file::get_credits;
use spritecollab::reporting::{DatafilesReport, LogLevel, ReportingEvent};
use spritecollab::scheduler::{after_wait, Tick, REFRESH_INTERVAL};
use spritecollab::form_assets::MonsterHistory;
use spritecollab::schema::{
    Config as ShownConfig, Credit, KnownLicenseType, License, Phase, Query,
    MAX_QUERY_LEN,
};
use spritecollab::search::{do_fuzzy_match, first_occurrences, fuzzy_find, sort_best_first};
use spritecollab::sprite_collab::{
    Meta, Phase as RefreshPhase, RefreshAction, SpriteCollab, SpriteCollabData, State, StepOutcome,
};
use spritecollab::sprite_config::SpriteConfig;
use spritecollab::tracker::{Group, Tracker};
use std::collections::HashMap;

fn config(actions: &[&str]) -> SpriteConfig {
    SpriteConfig {
        portrait_size: 40,
        portrait_tile_x: 5,
        portrait_tile_y: 8,
        completion_emotions: vec![vec![0, 1], vec![2]],
        emotions: vec!["Normal".to_string()],
        completion_actions: vec![],
        actions: actions.iter().map(|s| s.to_string()).collect(),
        action_map: HashMap::from([(0, "Walk".to_string())]),
    }
}

fn names(rows: &[&str]) -> CreditNames {
    let mut text = "Discord\tName\tContact\n".to_string();
    for r in rows {
        text.push_str(r);
        text.push_str("\t\t\n");
    }
    read_credit_names(text.as_bytes()).unwrap()
}

fn data(form_name: &str, files: &[&str]) -> SpriteCollabData {
    let mut form = Group::named(form_name);
    for f in files {
        form.sprite_files.insert(f.to_string(), false);
    }
    let mut root = Group::named("Pikachu");
    root.subgroups.insert(1, form);
    let mut tracker: Tracker = HashMap::new();
    tracker.insert(25, root);
    SpriteCollabData::new(config(&["Idle", "Walk"]), tracker, names(&["1", "2"]))
}

fn holder() -> SpriteCollab {
    SpriteCollab::new(data("Alt", &["Walk", "Idle"]), Meta::new(100), false)
}

fn loaded(d: SpriteCollabData) -> StepOutcome {
    StepOutcome::Loaded(d, "abc123".to_string(), 500)
}

#[test]
fn a_new_snapshot_has_sorted_files() {
    let d = data("Alt", &["Sleep", "Walk", "Idle"]);
    let keys: Vec<&str> =
        d.tracker[&25].subgroups[&1].sprite_files.keys().map(|k| k.as_str()).collect();
    assert_eq!(keys, vec!["Idle", "Walk", "Sleep"]);
}

#[test]
fn snapshots_are_compared_by_content() {
    let a = data("Alt", &["Walk", "Idle"]);
    assert!(a.equals(&data("Alt", &["Idle", "Walk"])));
    assert!(a.equals(&a));
    assert!(!a.equals(&data("Other", &["Walk", "Idle"])));
    assert!(!a.equals(&data("Alt", &["Walk"])));
    let mut deeper = data("Alt", &["Walk", "Idle"]);
    deeper.tracker.get_mut(&25).unwrap().subgroups.get_mut(&1).unwrap().subgroups.insert(0, Group::named(""));
    assert!(!a.equals(&deeper));
    assert!(!deeper.equals(&a));
    let mut bounty = data("Alt", &["Walk", "Idle"]);
    bounty.tracker.get_mut(&25).unwrap().sprite_bounty.insert(1, 10);
    assert!(!a.equals(&bounty));
    let mut cfg = data("Alt", &["Walk", "Idle"]);
    cfg.sprite_config.action_map.insert(1, "Idle".to_string());
    assert!(!a.equals(&cfg));
    let mut credits = data("Alt", &["Walk", "Idle"]);
    credits.credit_names = names(&["1", "3"]);
    assert!(!a.equals(&credits));
    let mut extra = data("Alt", &["Walk", "Idle"]);
    extra.tracker.insert(26, Group::named("Raichu"));
    assert!(!a.equals(&extra));
    assert!(!extra.equals(&a));
}

#[test]
fn a_refresh_starts_only_when_idle_and_locked() {
    let mut s = holder();
    assert_eq!(s.refresh(false), RefreshAction::Nothing);
    assert_eq!(s.state, State::Ready);
    assert_eq!(s.refresh(true), RefreshAction::FastForward);
    assert_eq!(s.state, State::Refreshing);
    assert_eq!(s.phase, RefreshPhase::Updating);
    // Already refreshing: nothing happens.
    assert_eq!(s.refresh(true), RefreshAction::Nothing);
    assert_eq!(s.phase, RefreshPhase::Updating);
}

#[test]
fn unchanged_content_keeps_the_snapshot_and_the_cache() {
    let mut s = holder();
    s.refresh(true);
    assert_eq!(s.step(StepOutcome::Done, 200), RefreshAction::Load);
    assert_eq!(s.step(loaded(data("Alt", &["Idle", "Walk"])), 300), RefreshAction::Nothing);
    assert_eq!(s.state, State::Ready);
    assert!(s.data().equals(&data("Alt", &["Walk", "Idle"])));
    assert_eq!(s.with_meta().update_checked_date, 300);
    assert_eq!(s.with_meta().assets_commit, "abc123");
    assert_eq!(s.with_meta().assets_update_date, 500);
    assert!(!s.stale);
}

#[test]
fn changed_content_is_published_and_wipes_the_cache() {
    let mut s = holder();
    s.refresh(true);
    s.step(StepOutcome::Done, 200);
    assert_eq!(s.step(loaded(data("New", &["Walk"])), 300), RefreshAction::ClearCache);
    assert_eq!(s.state, State::Ready);
    assert_eq!(s.phase, RefreshPhase::Idle);
    assert!(s.data().equals(&data("New", &["Walk"])));
    assert_eq!(s.with_meta().assets_commit, "abc123");
    // A step outside a refresh does nothing.
    assert_eq!(s.step(StepOutcome::Done, 999), RefreshAction::Nothing);
    assert_eq!(s.with_meta().update_checked_date, 300);
}

#[test]
fn a_repository_that_cannot_be_read_is_taken_back() {
    let mut s = holder();
    s.refresh(true);
    assert_eq!(s.step(StepOutcome::Done, 1), RefreshAction::Load);
    assert_eq!(s.step(StepOutcome::Failed, 2), RefreshAction::Rewind);
    assert_eq!(s.step(StepOutcome::Done, 3), RefreshAction::Load);
    assert_eq!(s.phase, RefreshPhase::Loading { rewound: true });
    assert_eq!(s.step(StepOutcome::Failed, 4), RefreshAction::Rewind);
    assert_eq!(s.step(StepOutcome::Done, 5), RefreshAction::Load);
    assert_eq!(s.step(loaded(data("Old", &[])), 6), RefreshAction::ClearCache);
    assert!(s.stale);
    assert_eq!(s.state, State::Ready);
}

#[test]
fn a_refresh_that_fails_keeps_the_snapshot() {
    // The update fails, then the fresh clone fails.
    let mut s = holder();
    s.refresh(true);
    assert_eq!(s.step(StepOutcome::Failed, 1), RefreshAction::Reclone);
    assert_eq!(s.step(StepOutcome::Failed, 2), RefreshAction::Nothing);
    assert_eq!(s.state, State::Ready);
    assert!(s.data().equals(&data("Alt", &["Walk", "Idle"])));
    assert_eq!(s.with_meta().update_checked_date, 2);
    assert_eq!(s.with_meta().assets_commit, "");
    // The fresh clone works.
    s.refresh(true);
    s.step(StepOutcome::Failed, 3);
    assert_eq!(s.step(StepOutcome::Done, 4), RefreshAction::Load);
    // There is no commit to go back to.
    assert_eq!(s.step(StepOutcome::Failed, 5), RefreshAction::Rewind);
    assert_eq!(s.step(StepOutcome::Failed, 6), RefreshAction::Nothing);
    assert_eq!(s.state, State::Ready);
    assert!(s.data().equals(&data("Alt", &["Walk", "Idle"])));
    assert_eq!(s.refresh(true), RefreshAction::FastForward);
}

#[test]
fn only_values_marked_for_the_cache_are_stored() {
    assert!(matches!(after_lookup(Some("v".to_string())), AfterLookup::Decode(t) if t == "v"));
    assert!(matches!(after_lookup(None), AfterLookup::Produce));
    let p = after_produce::<i32, String>(Ok(CacheBehaviour::Cache(5)));
    assert_eq!((p.result, p.store), (Ok(5), true));
    let p = after_produce::<i32, String>(Ok(CacheBehaviour::NoCache(5)));
    assert_eq!((p.result, p.store), (Ok(5), false));
    let p = after_produce::<i32, String>(Err("no".to_string()));
    assert_eq!((p.result, p.store), (Err("no".to_string()), false));
    assert_eq!(text_to_store(true, Some("5".to_string())), Some("5".to_string()));
    assert_eq!(text_to_store(true, None), None);
    assert_eq!(text_to_store(false, Some("5".to_string())), None);
    assert_eq!(CacheBehaviour::Cache(3).into_inner(), 3);
    assert_eq!(CacheBehaviour::NoCache(4).into_inner(), 4);
    assert!(CacheBehaviour::Cache(3).should_cache());
    assert!(!CacheBehaviour::NoCache(3).should_cache());
    assert_eq!(cached_may_fail_chain::<i32, i32>(Ok(Ok(1))), Ok(1));
    assert_eq!(cached_may_fail_chain::<i32, i32>(Ok(Err(2))), Err(2));
    assert_eq!(cached_may_fail_chain::<i32, i32>(Err(3)), Err(3));
}

#[test]
fn the_timer_stops_on_shutdown() {
    assert_eq!(REFRESH_INTERVAL, 15 * 60);
    assert_eq!(after_wait(false), Tick::Refresh);
    assert_eq!(after_wait(true), Tick::Stop);
}

fn env(pairs: &[(&str, &str)]) -> Vec<(String, String)> {
    pairs.iter().map(|(k, v)| (k.to_string(), v.to_string())).collect()
}

#[test]
fn settings_are_read_from_the_environment() {
    let full = env(&[
        ("SCSRV_ADDRESS", "http://x"),
        ("SCSRV_GIT_REPO", "repo"),
        ("SCSRV_GIT_ASSETS_URL", "assets"),
        ("SCSRV_WORKDIR", "/work"),
        ("SCSRV_REDIS_HOST", "localhost"),
        ("SCSRV_REDIS_PORT", "6379"),
        ("SCSRV_REDIS_PORT", "1"),
    ]);
    assert_eq!(Config::check(&full), Ok(()));
    assert_eq!(Config::Workdir.get_or_none(&full), Some("/work".to_string()));
    assert_eq!(Config::DiscordToken.get_or_none(&full), None);
    assert_eq!(Config::redis_config(&full), Some(("localhost".to_string(), 6379)));
    assert_eq!(Config::DiscordReputationFetchUrl.name(), "SCSRV_DISCORD_REPUTATION_FETCH_URL");
    assert_eq!(Config::DiscordChannels.name(), "SCSRV_DISCORD_CHANNELS");
    assert_eq!(Config::check(&full[1..].to_vec()), Err(Config::Address));
    assert_eq!(Config::check(&full[..3].to_vec()), Err(Config::Workdir));
    assert_eq!(Config::check(&env(&[])), Err(Config::Address));
    for bad in ["", "abc", "65536", "-1", " 1"] {
        let e = env(&[("SCSRV_REDIS_HOST", "h"), ("SCSRV_REDIS_PORT", bad)]);
        assert_eq!(Config::redis_config(&e), None, "{:?}", bad);
    }
    assert_eq!(Config::redis_config(&env(&[("SCSRV_REDIS_PORT", "1")])), None);
    assert_eq!(
        Config::redis_config(&env(&[("SCSRV_REDIS_HOST", "h"), ("SCSRV_REDIS_PORT", "+80")])),
        Some(("h".to_string(), 80))
    );
}

#[test]
fn events_read_in_the_log() {
    assert_eq!(ReportingEvent::Start.log(), (LogLevel::Info, "Started server.".to_string()));
    assert_eq!(ReportingEvent::Shutdown.log(), (LogLevel::Info, "Shutting down...".to_string()));
    assert_eq!(
        ReportingEvent::UpdateDatafiles(DatafilesReport::Fine).log(),
        (LogLevel::Debug, "Data refresh finished.".to_string())
    );
    assert_eq!(
        ReportingEvent::UpdateDatafiles(DatafilesReport::Failed("bad json".to_string())).log(),
        (LogLevel::Error, "Error updating the data files: bad json".to_string())
    );
    assert_eq!(
        ReportingEvent::StaleDatafiles("abc".to_string()).log(),
        (LogLevel::Warn, "Server running with stale datafiles from commit abc.".to_string())
    );
}

#[test]
fn licenses_and_phases_are_named() {
    let known = [
        ("Unknown", KnownLicenseType::Unknown),
        ("Unspecified", KnownLicenseType::Unspecified),
        ("PMDCollab_1", KnownLicenseType::PMDCollab1),
        ("PMDCollab_2", KnownLicenseType::PMDCollab2),
        ("CC_BY-NC_4", KnownLicenseType::CcByNc4),
    ];
    for (name, kind) in known {
        assert!(matches!(License::from(name.to_string()), License::KnownLicense(k) if k.license == kind));
    }
    assert!(matches!(License::from("MIT".to_string()), License::Other(o) if o.name == "MIT"));
    assert!(matches!(License::from("unknown".to_string()), License::Other(o) if o.name == "unknown"));
    assert_eq!(Phase::from(0), Phase::Incomplete);
    assert_eq!(Phase::from(1), Phase::Exists);
    assert_eq!(Phase::from(2), Phase::Full);
    assert_eq!(Phase::from(3), Phase::Unknown);
    assert_eq!(Phase::from(-1), Phase::Unknown);
    assert_eq!((Phase::Full.raw(), Phase::Unknown.raw()), (2, -1));
    assert!(Query::accepts(&"a".repeat(MAX_QUERY_LEN)));
    assert!(!Query::accepts(&"a".repeat(MAX_QUERY_LEN + 1)));
}

#[test]
fn history_entries_and_credits_are_made_from_rows() {
    let rows = get_credits("2022-05-01 12:00:00\t<@!123>\tOLD\tCC_BY-NC_4\tHappy,Sad\n".as_bytes()).unwrap();
    let names = read_credit_names("Discord\tName\tContact\n123\tAnn\tmail\n".as_bytes()).unwrap();
    let h = MonsterHistory::try_from_credit_row(&names, rows[0].clone()).unwrap();
    assert_eq!(h.credit().unwrap().id, "123");
    assert_eq!(h.credit().unwrap().name, Some("Ann".to_string()));
    assert_eq!(h.modified_date().secs, 1651406400);
    assert_eq!(h.modifications(), vec!["Happy", "Sad"]);
    assert!(h.obsolete());
    assert!(matches!(h.license(), License::KnownLicense(k) if k.license == KnownLicenseType::CcByNc4));
    let c = Credit::new(names.get("123")).unwrap();
    assert_eq!((c.id(), c.name(), c.contact()), ("123".to_string(), Some("Ann".to_string()), Some("mail".to_string())));
    assert!(Credit::new(names.get("9")).is_none());
    let c = Credit::from(names.iter().first().unwrap());
    assert_eq!(c.id, "123");
}

#[test]
fn search_orders_by_score_and_keeps_each_id_once() {
    assert_eq!(
        sort_best_first(&vec![(5, 1), (9, 2), (5, 3), (7, 4), (9, 5)]),
        vec![(9, 2), (9, 5), (7, 4), (5, 1), (5, 3)]
    );
    assert_eq!(first_occurrences(&vec![(9, 2), (9, 5), (7, 2), (5, 1), (5, 5)]), vec![2, 5, 1]);
    assert_eq!(do_fuzzy_match("Pikachu", "zzz"), None);
    assert!(do_fuzzy_match("Pikachu", "pika").unwrap() > 0);
    assert_eq!(do_fuzzy_match("PIKACHU", "pika"), do_fuzzy_match("pikachu", "pika"));
    let index = vec![
        ("Raichu".to_string(), vec![26]),
        ("Pikachu".to_string(), vec![25, 172]),
        ("Pichu".to_string(), vec![172]),
        ("Bulbasaur".to_string(), vec![1]),
    ];
    assert_eq!(fuzzy_find(&index, "PIKACHU"), vec![25, 172]);
    assert_eq!(fuzzy_find(&index, "bulba"), vec![1]);
    let chu = fuzzy_find(&index, "chu");
    assert_eq!(chu.len(), 3);
    assert!(chu.contains(&26) && chu.contains(&25) && chu.contains(&172));
    assert_eq!(fuzzy_find(&index, "xyz"), Vec::<i64>::new());
    assert_eq!(fuzzy_find(&vec![], "a"), Vec::<i64>::new());
}

fn anim(name: &str, w: Option<i64>, copy_of: Option<&str>) -> Anim {
    Anim {
        name: name.to_string(),
        index: None,
        frame_width: w,
        frame_height: w,
        durations: None,
        rush_frame: None,
        hit_frame: None,
        return_frame: None,
        copy_of: copy_of.map(|s| s.to_string()),
    }
}

fn xml(anims: Vec<Anim>) -> AnimDataXml {
    AnimDataXml { shadow_size: 1, anims: Anims { anim: anims } }
}

#[test]
fn forms_with_sprites_are_checked() {
    let mut with = Group::named("With");
    with.sprite_complete = 1;
    let mut deep = Group::named("Deep");
    deep.sprite_complete = 2;
    let mut zero = Group::named("");
    zero.sprite_complete = 1;
    zero.subgroups.insert(4, deep);
    let mut root = Group::named("Root");
    root.subgroups.insert(1, with);
    root.subgroups.insert(2, Group::named("Without"));
    root.subgroups.insert(0, zero);
    let mut other = Group::named("Other");
    other.sprite_complete = 1;
    let mut tracker: Tracker = HashMap::new();
    tracker.insert(25, root);
    tracker.insert(7, other);
    let mut forms = forms_to_check(&tracker);
    forms.sort();
    assert_eq!(forms, vec![(7, vec![]), (25, vec![0, 4]), (25, vec![1])]);
}

#[test]
fn a_snapshot_needs_usable_animation_data() {
    let good = || FormCheck {
        monster_idx: 25,
        path: vec![],
        anim_data: Ok(xml(vec![anim("Walk", Some(8), None), anim("Sleep", None, Some("Walk"))])),
    };
    assert_eq!(try_read_in_anim_data_xml(&vec![good(), good()]), Ok(()));
    assert_eq!(try_read_in_anim_data_xml(&vec![]), Ok(()));
    let checks = vec![
        good(),
        FormCheck { monster_idx: 26, path: vec![1], anim_data: Err("no such file".to_string()) },
        good(),
        FormCheck { monster_idx: 27, path: vec![0, 1], anim_data: Ok(xml(vec![anim("Hurt", None, None)])) },
    ];
    assert_eq!(
        try_read_in_anim_data_xml(&checks),
        Err(DataReadError::AnimDataXmlErrors(vec![
            (26, vec![1], "no such file".to_string()),
            (27, vec![0, 1], "FrameWidth or FrameHeight missing for Hurt".to_string()),
        ]))
    );
}

#[test]
fn the_configuration_is_shown_with_its_actions_as_a_list() {
    let mut cfg = config(&["Idle", "Walk"]);
    cfg.action_map.insert(7, "Idle".to_string());
    let shown = ShownConfig::from(&cfg);
    assert_eq!((shown.portrait_size, shown.portrait_tile_x, shown.portrait_tile_y), (40, 5, 8));
    assert_eq!(shown.emotions, vec!["Normal"]);
    assert_eq!(shown.actions, vec!["Idle", "Walk"]);
    assert_eq!(shown.completion_emotions, vec![vec![0, 1], vec![2]]);
    assert!(shown.completion_actions.is_empty());
    let mut actions: Vec<(i32, String)> =
        shown.action_map.iter().map(|a| (a.id, a.name.clone())).collect();
    actions.sort();
    assert_eq!(actions, vec![(0, "Walk".to_string()), (7, "Idle".to_string())]);
    let asked = Query::config(&cfg);
    assert_eq!(asked.actions, shown.actions);
    assert_eq!(asked.action_map.len(), 2);
    assert_eq!(asked.portrait_size, 40);
}
