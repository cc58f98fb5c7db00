use spritecollab::cache::CacheBehaviour;
use spritecollab::credit_names::{read_credit_names, CreditNames};
use spritecollab::monster::{MonsterForm, QueryError};
use spritecollab::schema::{Monster, Query};
use spritecollab::tracker::{Group, Tracker};
use std::collections::HashMap;

fn branch(name: &str, subs: Vec<(i64, Group)>) -> Group {
    let mut g = Group::named(name);
    for (id, sub) in subs {
        g.subgroups.insert(id, sub);
    }
    g
}

fn eevee_and_friends() -> Tracker {
    let mut tracker: Tracker = HashMap::new();
    tracker.insert(
        133,
        branch(
            "Eevee",
            vec![
                (
                    0,
                    branch(
                        "",
                        vec![
                            (0, branch("", vec![(2, branch("Female", vec![]))])),
                            (1, branch("Shiny", vec![(2, branch("Female", vec![]))])),
                        ],
                    ),
                ),
                (1, branch("Starter", vec![])),
            ],
        ),
    );
    tracker.insert(134, branch("Vaporeon", vec![]));
    tracker.insert(135, branch("Jolteon", vec![]));
    tracker
}

fn credit_names(rows: &[(&str, &str, &str)]) -> CreditNames {
    let mut text = "Discord\tName\tContact\n".to_string();
    for (id, name, contact) in rows {
        text.push_str(&format!("{}\t{}\t{}\n", id, name, contact));
    }
    read_credit_names(text.as_bytes()).unwrap()
}

fn paths(forms: &[MonsterForm]) -> Vec<Vec<i32>> {
    let mut all: Vec<Vec<i32>> = forms.iter().map(|f| f.form_id.clone()).collect();
    all.sort();
    all
}

#[test]
fn a_form_spells_its_paths_with_four_digits() {
    let data = Group::named("Female");
    let form = MonsterForm {
        id: 133,
        form_id: vec![0, 1, 2],
        name_path: vec!["Shiny".to_string(), "Female".to_string()],
        data: &data,
    };
    assert_eq!(form.monster_id(), 133);
    assert_eq!(form.path(), "0000/0001/0002");
    assert_eq!(form.full_path(), "0133/0000/0001/0002");
    assert_eq!(form.name(), "Female");
    assert_eq!(form.full_name(), "Shiny Female");
    assert!(form.is_shiny());
    assert!(form.is_female());
    assert!(!form.canon());
}

#[test]
fn the_form_of_the_monster_itself_has_empty_paths() {
    let data = Group::named("Eevee");
    let form = MonsterForm { id: 7, form_id: vec![], name_path: vec![], data: &data };
    assert_eq!(form.path(), "");
    assert_eq!(form.full_path(), "0007");
    assert_eq!(form.full_name(), "");
    assert!(!form.is_shiny());
    assert!(!form.is_female());
}

#[test]
fn a_single_name_is_joined_without_blanks() {
    let data = Group::named("Starter");
    let form = MonsterForm { id: 133, form_id: vec![1], name_path: vec!["Starter".to_string()], data: &data };
    assert_eq!(form.full_name(), "Starter");
    assert_eq!(form.path(), "0001");
    assert!(!form.is_shiny());
}

#[test]
fn a_monster_is_named_by_the_tracker() {
    let tracker = eevee_and_friends();
    assert_eq!(Monster { id: 133 }.name(&tracker), Ok("Eevee".to_string()));
    assert_eq!(Monster { id: 1 }.name(&tracker), Err(QueryError::MonsterNotFound(1)));
    assert_eq!(Monster { id: 133 }.raw_id(), "0133");
    assert_eq!(Monster { id: 12345 }.raw_id(), "12345");
}

#[test]
fn the_forms_of_a_monster_start_with_the_monster() {
    let tracker = eevee_and_friends();
    let forms = Monster { id: 133 }.forms(&tracker).unwrap();
    assert!(forms[0].form_id.is_empty());
    assert_eq!(forms[0].data.name, "Eevee");
    assert!(forms.iter().all(|f| f.id == 133));
    assert_eq!(
        paths(&forms[1..]),
        vec![vec![0, 0, 2], vec![0, 1], vec![0, 1, 2], vec![1]]
    );
    let shiny_female = forms.iter().find(|f| f.form_id == vec![0, 1, 2]).unwrap();
    assert_eq!(shiny_female.full_name(), "Shiny Female");
    assert!(matches!(
        Monster { id: 2 }.forms(&tracker),
        Err(QueryError::MonsterNotFound(2))
    ));
}

#[test]
fn a_form_is_found_by_number_shininess_and_gender() {
    let tracker = eevee_and_friends();
    let eevee = Monster { id: 133 };
    let form = eevee.get(&tracker, 0, true, true).unwrap().unwrap();
    assert_eq!(form.form_id, vec![0, 1, 2]);
    assert_eq!(form.full_name(), "Shiny Female");
    let form = eevee.get(&tracker, 0, true, false).unwrap().unwrap();
    assert_eq!(form.form_id, vec![0, 1]);
    assert_eq!(form.name(), "Shiny");
    let form = eevee.get(&tracker, 0, false, true).unwrap().unwrap();
    assert_eq!(form.form_id, vec![0, 0, 2]);
    let form = eevee.get(&tracker, 0, false, false).unwrap().unwrap();
    assert_eq!(form.form_id, vec![0]);
    assert_eq!(form.name(), "");
    assert_eq!(form.full_name(), "");
    let form = Monster { id: 134 }.get(&tracker, 0, false, false).unwrap().unwrap();
    assert_eq!(form.form_id, Vec::<i32>::new());
    assert_eq!(form.name(), "Vaporeon");
    let form = eevee.get(&tracker, 1, false, false).unwrap().unwrap();
    assert_eq!(form.form_id, vec![1]);
    assert!(eevee.get(&tracker, 1, true, false).unwrap().is_none());
    assert!(eevee.get(&tracker, 1, false, true).unwrap().is_none());
    assert!(eevee.get(&tracker, 9, false, false).unwrap().is_none());
    assert!(matches!(
        Monster { id: 9 }.get(&tracker, 0, false, false),
        Err(QueryError::MonsterNotFound(9))
    ));
}

#[test]
fn a_form_is_found_by_a_path_given_as_text() {
    let tracker = eevee_and_friends();
    let eevee = Monster { id: 133 };
    let form = eevee.manual(&tracker, "0000/0001/0002").unwrap().unwrap();
    assert_eq!(form.form_id, vec![0, 1, 2]);
    let form = eevee.manual(&tracker, "/0//1/").unwrap().unwrap();
    assert_eq!(form.form_id, vec![0, 1]);
    let form = eevee.manual(&tracker, "1/0/0").unwrap().unwrap();
    assert_eq!(form.form_id, vec![1]);
    let form = eevee.manual(&tracker, "").unwrap().unwrap();
    assert_eq!(form.form_id, vec![0]);
    let form = Monster { id: 135 }.manual(&tracker, "").unwrap().unwrap();
    assert!(form.form_id.is_empty());
    assert_eq!(form.name(), "Jolteon");
    assert!(eevee.manual(&tracker, "0/1/1").unwrap().is_none());
    assert!(matches!(eevee.manual(&tracker, "0/x/2"), Err(QueryError::InvalidPath)));
    assert!(matches!(eevee.manual(&tracker, "0/1/99999999999"), Err(QueryError::InvalidPath)));
    assert!(matches!(
        Monster { id: 5 }.manual(&tracker, "0/1"),
        Err(QueryError::MonsterNotFound(5))
    ));
    assert!(matches!(Monster { id: 5 }.manual(&tracker, "zero"), Err(QueryError::InvalidPath)));
}

#[test]
fn monsters_are_listed_all_or_by_a_filter() {
    let tracker = eevee_and_friends();
    let mut all: Vec<i32> = Query::monster(&tracker, None).iter().map(|m| m.id).collect();
    all.sort();
    assert_eq!(all, vec![133, 134, 135]);
    let filter = vec![135, 1, 133];
    let mut some: Vec<i32> =
        Query::monster(&tracker, Some(&filter)).iter().map(|m| m.id).collect();
    some.sort();
    assert_eq!(some, vec![133, 135]);
    let nothing: Vec<i32> = vec![];
    assert!(Query::monster(&tracker, Some(&nothing)).is_empty());
}

#[test]
fn a_search_for_monsters_is_kept_only_with_results() {
    let tracker = eevee_and_friends();
    match Query::search_monster(&tracker, "vapor").unwrap() {
        CacheBehaviour::Cache(found) => assert_eq!(found, vec![Monster { id: 134 }]),
        CacheBehaviour::NoCache(_) => panic!("a search with results is kept"),
    }
    match Query::search_monster(&tracker, "qqqq").unwrap() {
        CacheBehaviour::NoCache(found) => assert!(found.is_empty()),
        CacheBehaviour::Cache(_) => panic!("a search without results is not kept"),
    }
    match Query::search_monster(&tracker, "shiny").unwrap() {
        CacheBehaviour::Cache(found) => assert_eq!(found, vec![Monster { id: 133 }]),
        CacheBehaviour::NoCache(_) => panic!("a search with results is kept"),
    }
}

#[test]
fn a_search_text_of_more_than_75_bytes_is_refused() {
    let tracker = eevee_and_friends();
    let names = credit_names(&[("1", "Ann", "")]);
    let long = "e".repeat(76);
    assert!(matches!(Query::search_monster(&tracker, &long), Err(QueryError::QueryTooLong)));
    assert!(matches!(Query::search_credit(&names, &long), Err(QueryError::QueryTooLong)));
    let just = "e".repeat(75);
    assert!(Query::search_monster(&tracker, &just).is_ok());
    assert!(Query::search_credit(&names, &just).is_ok());
    let accented = "é".repeat(38);
    assert_eq!(accented.chars().count(), 38);
    assert!(!Query::accepts(&accented));
    assert!(Query::accepts(&"é".repeat(37)));
    assert!(matches!(Query::search_monster(&tracker, &accented), Err(QueryError::QueryTooLong)));
}

#[test]
fn a_search_for_credits_gives_the_rows_as_credits() {
    let names = credit_names(&[
        ("1001", "Ann", "ann@example.org"),
        ("1002", "Bert", ""),
        ("1003", "", ""),
    ]);
    match Query::search_credit(&names, "bert").unwrap() {
        CacheBehaviour::Cache(found) => {
            assert_eq!(found.len(), 1);
            assert_eq!(found[0].id, "1002");
            assert_eq!(found[0].name, Some("Bert".to_string()));
            assert_eq!(found[0].contact, None);
        }
        CacheBehaviour::NoCache(_) => panic!("a search with results is kept"),
    }
    match Query::search_credit(&names, "zzzz").unwrap() {
        CacheBehaviour::NoCache(found) => assert!(found.is_empty()),
        CacheBehaviour::Cache(_) => panic!("a search without results is not kept"),
    }
    let all = Query::credit(&names);
    assert_eq!(all.len(), 3);
    assert_eq!(all[0].id, "1001");
    assert_eq!(all[0].name, Some("Ann".to_string()));
    assert_eq!(all[0].contact, Some("ann@example.org".to_string()));
    assert_eq!(all[2].id, "1003");
    assert_eq!(all[2].name, None);
}
