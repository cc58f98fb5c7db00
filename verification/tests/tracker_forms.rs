use indexmap::IndexMap;
use spritecollab::forms::FormEntry;
use spritecollab::schema::{MonsterBounty, OtherBounty};
use spritecollab::sorting::{file_names, sort_tracker_by_sprite_config};
use spritecollab::sprite_config::SpriteConfig;
use spritecollab::tracker::{
    collapse, form_match_combinations, FormMatch, Group, GroupId, MonsterFormCollector, Tracker,
};
use spritecollab::tracker_search::{build_name_index, fft_insert, fuzzy_find_tracker};
use std::collections::HashMap;

fn group(name: &str, subs: Vec<(i64, Group)>) -> Group {
    let mut g = Group::named(name);
    for (id, sub) in subs {
        g.subgroups.insert(id, sub);
    }
    g
}

fn config(actions: &[&str], emotions: &[&str]) -> SpriteConfig {
    SpriteConfig {
        portrait_size: 40,
        portrait_tile_x: 5,
        portrait_tile_y: 8,
        completion_emotions: vec![],
        emotions: emotions.iter().map(|s| s.to_string()).collect(),
        completion_actions: vec![],
        actions: actions.iter().map(|s| s.to_string()).collect(),
        action_map: HashMap::new(),
    }
}

fn pikachu() -> Tracker {
    let mut tracker: Tracker = HashMap::new();
    tracker.insert(
        25,
        group(
            "Pikachu",
            vec![
                (0, group("", vec![(1, group("Shiny", vec![]))])),
                (1, group("Cosplay", vec![(0, group("", vec![(2, group("Female", vec![]))]))])),
            ],
        ),
    );
    tracker
}

fn names(entry: &(Vec<i32>, Vec<String>, &Group)) -> Vec<String> {
    entry.1.clone()
}

#[test]
fn find_form_falls_back_to_zero_and_collapses() {
    let tracker = pikachu();
    let collector = MonsterFormCollector::collect(&tracker, 25).unwrap();
    let found = collector.find_form(&[FormMatch::Exact(1), FormMatch::Fallback(2)]).unwrap();
    assert_eq!(found.0, vec![1]);
    assert_eq!(names(&found), vec!["Cosplay".to_string()]);
    assert_eq!(found.2.name, "Cosplay");
}

#[test]
fn find_form_prefers_the_exact_element_over_the_fallback() {
    let mut tracker = pikachu();
    tracker.get_mut(&25).unwrap().subgroups.get_mut(&1).unwrap().subgroups.insert(2, Group::named("Two"));
    let collector = MonsterFormCollector::collect(&tracker, 25).unwrap();
    let found = collector.find_form(&[FormMatch::Exact(1), FormMatch::Fallback(2)]).unwrap();
    assert_eq!(found.0, vec![1, 2]);
    assert_eq!(names(&found), vec!["Cosplay".to_string(), "Two".to_string()]);
}

#[test]
fn find_form_walks_through_unnamed_groups() {
    let tracker = pikachu();
    let collector = MonsterFormCollector::collect(&tracker, 25).unwrap();
    let found = collector.find_form(&[FormMatch::Exact(0), FormMatch::Exact(1)]).unwrap();
    assert_eq!(found.0, vec![0, 1]);
    assert_eq!(names(&found), vec!["Shiny".to_string()]);
    let found = collector.find_form(&[FormMatch::Exact(1), FormMatch::Exact(0), FormMatch::Exact(2)]).unwrap();
    assert_eq!(found.0, vec![1, 0, 2]);
    assert_eq!(names(&found), vec!["Cosplay".to_string(), "Female".to_string()]);
}

#[test]
fn find_form_fails_for_a_form_that_is_not_there() {
    let tracker = pikachu();
    let collector = MonsterFormCollector::collect(&tracker, 25).unwrap();
    assert!(collector.find_form(&[FormMatch::Exact(7)]).is_none());
    assert!(collector.find_form(&[FormMatch::Exact(1), FormMatch::Exact(5)]).is_none());
    assert!(MonsterFormCollector::collect(&tracker, 26).is_none());
}

#[test]
fn find_form_ignores_zeros_at_the_end() {
    let tracker = pikachu();
    let collector = MonsterFormCollector::collect(&tracker, 25).unwrap();
    for zeros in 0..4 {
        let mut needle = vec![FormMatch::Exact(1)];
        for _ in 0..zeros {
            needle.push(FormMatch::Exact(0));
        }
        let found = collector.find_form(&needle).unwrap();
        assert_eq!(found.0, vec![1]);
        assert_eq!(found.2.name, "Cosplay");
    }
}

#[test]
fn find_form_of_an_empty_or_zero_needle() {
    let tracker = pikachu();
    let collector = MonsterFormCollector::collect(&tracker, 25).unwrap();
    // The root has a subgroup 0: a path of zeros only names that subgroup.
    let found = collector.find_form(&[]).unwrap();
    assert_eq!(found.0, vec![0]);
    let found = collector.find_form(&[FormMatch::Exact(0), FormMatch::Exact(0)]).unwrap();
    assert_eq!(found.0, vec![0]);
    // A root without a subgroup 0 stands for itself.
    let mut tracker: Tracker = HashMap::new();
    tracker.insert(1, group("Bulbasaur", vec![(1, Group::named("Alt"))]));
    let collector = MonsterFormCollector::collect(&tracker, 1).unwrap();
    let found = collector.find_form(&[]).unwrap();
    assert_eq!(found.0, Vec::<i32>::new());
    assert_eq!(found.2.name, "Bulbasaur");
    assert_eq!(names(&found), Vec::<String>::new());
}

#[test]
fn form_match_combinations_branch_on_fallbacks() {
    assert_eq!(form_match_combinations(&[]), vec![Vec::<i32>::new()]);
    assert_eq!(
        form_match_combinations(&[FormMatch::Exact(1), FormMatch::Fallback(2)]),
        vec![vec![1, 2], vec![1, 0]]
    );
    assert_eq!(
        form_match_combinations(&[FormMatch::Fallback(3), FormMatch::Exact(1), FormMatch::Fallback(2)]),
        vec![vec![3, 1, 2], vec![0, 1, 2], vec![3, 1, 0], vec![0, 1, 0]]
    );
}

#[test]
fn collapse_strips_zeros_but_keeps_one_element() {
    assert_eq!(collapse(&[3, 0, 0]), vec![3]);
    assert_eq!(collapse(&[3, 0, 1]), vec![3, 0, 1]);
    assert_eq!(collapse(&[0, 0]), vec![0]);
    assert_eq!(collapse(&[]), vec![0]);
}

#[test]
fn shiny_and_female_are_read_from_the_path() {
    assert!(MonsterFormCollector::is_shiny(&[0, 1]));
    assert!(MonsterFormCollector::is_shiny(&[7, 1, 2, 9]));
    assert!(!MonsterFormCollector::is_shiny(&[1]));
    assert!(!MonsterFormCollector::is_shiny(&[1, 0, 1]));
    assert!(!MonsterFormCollector::is_shiny(&[]));
    assert!(MonsterFormCollector::is_female(&[0, 0, 2]));
    assert!(MonsterFormCollector::is_female(&[4, 1, 2, 0]));
    assert!(!MonsterFormCollector::is_female(&[0, 2]));
    assert!(!MonsterFormCollector::is_female(&[0, 0, 1]));
}

#[test]
fn forms_lists_every_group_but_those_with_id_zero() {
    let tracker = pikachu();
    let collector = MonsterFormCollector::collect(&tracker, 25).unwrap();
    let forms: Vec<FormEntry> = collector.forms();
    assert_eq!(forms[0].0, Vec::<i32>::new());
    assert_eq!(forms[0].1, vec!["Pikachu".to_string()]);
    let mut listed: Vec<(Vec<i32>, Vec<String>)> =
        forms.iter().skip(1).map(|f| (f.0.clone(), f.1.clone())).collect();
    listed.sort();
    assert_eq!(
        listed,
        vec![
            (vec![0, 1], vec!["Shiny".to_string()]),
            (vec![1], vec!["Cosplay".to_string()]),
            (vec![1, 0, 2], vec!["Cosplay".to_string(), "Female".to_string()]),
        ]
    );
}

#[test]
fn sort_puts_known_actions_first_in_config_order() {
    let cfg = config(&["Idle", "Walk", "Attack"], &[]);
    let mut g = Group::named("Pikachu");
    let mut files = IndexMap::new();
    files.insert("Attack".to_string(), false);
    files.insert("Idle".to_string(), true);
    files.insert("Walk".to_string(), false);
    files.insert("Sleep".to_string(), true);
    g.sprite_files = files;
    let mut tracker: Tracker = HashMap::new();
    tracker.insert(25, g);
    sort_tracker_by_sprite_config(&mut tracker, &cfg);
    let sorted = &tracker[&25].sprite_files;
    let order: Vec<&str> = sorted.keys().map(|k| k.as_str()).collect();
    assert_eq!(order, vec!["Idle", "Walk", "Attack", "Sleep"]);
    assert_eq!(sorted["Idle"], true);
    assert_eq!(sorted["Sleep"], true);
    assert_eq!(sorted["Attack"], false);
    assert_eq!(file_names(sorted), vec!["Idle", "Walk", "Attack", "Sleep"]);
}

#[test]
fn sort_reaches_subgroups_and_portraits() {
    let cfg = config(&["Idle"], &["Normal", "Happy", "Sad"]);
    let mut sub = Group::named("Alt");
    sub.portrait_files.insert("zeta".to_string(), false);
    sub.portrait_files.insert("Sad".to_string(), false);
    sub.portrait_files.insert("alpha".to_string(), true);
    sub.portrait_files.insert("Normal".to_string(), false);
    sub.portrait_files.insert("Beta".to_string(), false);
    let mut tracker: Tracker = HashMap::new();
    tracker.insert(1, group("Root", vec![(3, group("Mid", vec![(4, sub)]))]));
    sort_tracker_by_sprite_config(&mut tracker, &cfg);
    let files = &tracker[&1].subgroups[&3].subgroups[&4].portrait_files;
    let order: Vec<&str> = files.keys().map(|k| k.as_str()).collect();
    assert_eq!(order, vec!["Normal", "Sad", "Beta", "alpha", "zeta"]);
    assert_eq!(files["alpha"], true);
    assert_eq!(tracker[&1].subgroups[&3].name, "Mid");
}

#[test]
fn sorted_keys_follow_the_order_of_the_configuration() {
    let actions = ["Walk", "Idle", "Sleep", "Attack", "Hurt"];
    let cfg = config(&actions, &[]);
    let mut g = Group::named("x");
    for name in ["Hurt", "Unknown", "Sleep", "Walk", "Another", "Idle"] {
        g.sprite_files.insert(name.to_string(), false);
    }
    let mut tracker: Tracker = HashMap::new();
    tracker.insert(1, g);
    sort_tracker_by_sprite_config(&mut tracker, &cfg);
    let keys: Vec<String> = tracker[&1].sprite_files.keys().cloned().collect();
    let known: Vec<&String> = keys.iter().filter(|k| actions.contains(&k.as_str())).collect();
    let expected: Vec<&str> = actions.iter().copied().filter(|a| keys.iter().any(|k| k == a)).collect();
    assert_eq!(known, expected);
    assert_eq!(keys.len(), 6);
}

#[test]
fn name_index_holds_lower_case_names() {
    let mut index: Vec<(String, Vec<i64>)> = Vec::new();
    fft_insert(&mut index, 25, "Pikachu");
    fft_insert(&mut index, 26, "Raichu");
    fft_insert(&mut index, 172, "PIKACHU");
    assert_eq!(
        index,
        vec![("pikachu".to_string(), vec![25, 172]), ("raichu".to_string(), vec![26])]
    );
    let tracker = pikachu();
    let mut built = build_name_index(&tracker);
    built.sort();
    let keys: Vec<&str> = built.iter().map(|e| e.0.as_str()).collect();
    assert_eq!(keys, vec!["", "cosplay", "female", "pikachu", "shiny"]);
    assert!(built.iter().all(|e| e.1.iter().all(|id| *id == 25)));
}

#[test]
fn fuzzy_find_tracker_finds_monsters_by_form_names() {
    let mut tracker = pikachu();
    tracker.insert(1, Group::named("Bulbasaur"));
    assert_eq!(fuzzy_find_tracker(&tracker, "pika"), vec![25]);
    assert_eq!(fuzzy_find_tracker(&tracker, "COSPLAY"), vec![25]);
    assert_eq!(fuzzy_find_tracker(&tracker, "bulba"), vec![1]);
    assert_eq!(fuzzy_find_tracker(&tracker, "zzzz"), Vec::<i64>::new());
}

#[test]
fn monster_bounty_splits_standard_and_other_phases() {
    let mut spec: HashMap<i64, i64> = HashMap::new();
    spec.insert(0, 5);
    spec.insert(2, 20);
    spec.insert(7, 70);
    spec.insert(-1, 3);
    let bounty = MonsterBounty::new(true, &spec);
    assert!(bounty.modreward);
    assert_eq!(bounty.incomplete, Some(5));
    assert_eq!(bounty.exists, None);
    assert_eq!(bounty.full, Some(20));
    let mut other = bounty.other.clone();
    other.sort_by_key(|o| o.phase);
    assert_eq!(
        other,
        vec![OtherBounty { phase: -1, bounty: 3 }, OtherBounty { phase: 7, bounty: 70 }]
    );
    let empty = MonsterBounty::new(false, &HashMap::new());
    assert_eq!((empty.incomplete, empty.exists, empty.full, empty.other.len()), (None, None, None, 0));
}

#[test]
fn group_ids_are_read_with_any_number_of_leading_zeros() {
    assert_eq!(GroupId::from_text("0000"), Some(GroupId(0)));
    assert_eq!(GroupId::from_text(""), Some(GroupId(0)));
    assert_eq!(GroupId::from_text("0025"), Some(GroupId(25)));
    assert_eq!(GroupId::from_text("25"), Some(GroupId(25)));
    assert_eq!(GroupId::from_text("000000000000000000000000007"), Some(GroupId(7)));
    assert_eq!(GroupId::from_text("-3"), Some(GroupId(-3)));
    assert_eq!(GroupId::from_text("9223372036854775807"), Some(GroupId(i64::MAX)));
    assert_eq!(GroupId::from_text("9223372036854775808"), None);
    assert_eq!(GroupId::from_text("12a"), None);
    assert_eq!(GroupId::from_text("0x10"), None);
}
