use plugin_doro::daily::{date_record_file, random_index, user_entries_of, user_map_file, DailyState};
use plugin_doro::ending::{DoroData, DoroEnding, DoroEndingManager};

fn catalogue(n: u64) -> DoroEndingManager {
    let mut m = DoroEndingManager::new("d.json", "pics");
    let datas: Vec<DoroEnding> = (1..=n)
        .map(|i| DoroEnding {
            id: i,
            name: format!("结局{}", i),
            english_name: format!("End{}", i),
            pic: format!("{:08}_End{}.jpg", i, i),
        })
        .collect();
    m.load(Some(DoroData { total: datas.len(), datas, max_id: n }));
    m
}

#[test]
fn random_index_is_hash_mod_len() {
    assert_eq!(random_index(5, 17), 2);
    assert_eq!(random_index(1, u64::MAX), 0);
}

#[test]
fn same_user_same_day_keeps_ending() {
    let m = catalogue(5);
    let mut s = DailyState::new();
    let first = s.get_today_ending(&m, 12345, "2024-05-01", 3);
    assert!(first.rolled_over);
    assert!(first.assigned);
    assert_eq!(first.ending.as_ref().unwrap().0, 4);
    assert_eq!(first.ending.as_ref().unwrap().1, "00000004_End4.jpg");
    let again = s.get_today_ending(&m, 12345, "2024-05-01", 999);
    assert!(!again.rolled_over);
    assert!(!again.assigned);
    assert_eq!(again.ending, first.ending);
    assert_eq!(s.assignments().len(), 1);
    assert_eq!(s.assignments()[0].0, "12345");
}

#[test]
fn next_day_draws_again() {
    let m = catalogue(5);
    let mut s = DailyState::new();
    s.get_today_ending(&m, 1, "2024-05-01", 0);
    s.get_today_ending(&m, 2, "2024-05-01", 1);
    assert_eq!(s.assignments().len(), 2);
    let next = s.get_today_ending(&m, 1, "2024-05-02", 2);
    assert!(next.rolled_over);
    assert!(next.assigned);
    assert_eq!(next.ending.unwrap().0, 3);
    assert_eq!(s.date(), "2024-05-02");
    assert_eq!(s.assignments().len(), 1, "yesterday's users are forgotten");
}

#[test]
fn no_endings_gives_nothing() {
    let m = catalogue(0);
    let mut s = DailyState::new();
    let r = s.get_today_ending(&m, 1, "2024-05-01", 0);
    assert!(r.ending.is_none());
    assert!(!r.assigned);
}

#[test]
fn removed_ending_is_redrawn() {
    let mut m = catalogue(3);
    let mut s = DailyState::restore(Some("2024-05-01"), &[("7".to_string(), 2)]);
    assert!(m.remove("2").is_some());
    let r = s.get_today_ending(&m, 7, "2024-05-01", 0);
    assert!(r.assigned);
    assert!(!r.rolled_over);
    assert_eq!(r.ending.unwrap().0, 1);
}

#[test]
fn restored_state_keeps_assignment() {
    let m = catalogue(3);
    let mut s = DailyState::restore(Some("2024-05-01"), &[("7".to_string(), 3), ("8".to_string(), 1)]);
    let r = s.get_today_ending(&m, 7, "2024-05-01", 0);
    assert!(!r.assigned);
    assert_eq!(r.ending.unwrap().0, 3);
    let fresh = DailyState::restore(None, &[]);
    assert_eq!(fresh.date(), "");
}

#[test]
fn same_day_answer_survives_catalogue_changes() {
    let mut m = catalogue(4);
    let mut s = DailyState::new();
    let first = s.get_today_ending(&m, 42, "2024-05-01", 1).ending.unwrap();
    assert_eq!(first.0, 2);
    let _ = m.add("新", "New", "new.png");
    assert_eq!(s.get_today_ending(&m, 42, "2024-05-01", 3).ending.unwrap(), first);
    let _ = m.update(2, "name", "改名");
    assert_eq!(s.get_today_ending(&m, 42, "2024-05-01", 0).ending.unwrap(), first);
    let _ = m.remove("1");
    let _ = s.get_today_ending(&m, 7, "2024-05-01", 5);
    let again = s.get_today_ending(&m, 42, "2024-05-01", 2);
    assert!(!again.assigned);
    assert_eq!(again.ending.unwrap(), first);
}

#[test]
fn daily_state_files() {
    assert_eq!(date_record_file("data/plugin_doro"), "data/plugin_doro/doro_date_record.json");
    assert_eq!(user_map_file("data/plugin_doro"), "data/plugin_doro/user_doro_map.json");
}

#[test]
fn restore_from_stored_files() {
    let s = DailyState::restore_from_files(
        Some(r#"{"date": "2024-05-01"}"#),
        Some(r#"{"12345": 3, "777": "x", "888": -1, "999": 5}"#),
    );
    assert_eq!(s.date(), "2024-05-01");
    let mut got: Vec<(String, u64)> = s.assignments().to_vec();
    got.sort();
    assert_eq!(got, vec![("12345".to_string(), 3), ("999".to_string(), 5)]);
    let m = catalogue(5);
    let mut s = s;
    let r = s.get_today_ending(&m, 12345, "2024-05-01", 0);
    assert_eq!(r.ending.unwrap().0, 3);
    assert!(!r.rolled_over && !r.assigned);
}

#[test]
fn restore_from_unreadable_files() {
    let s = DailyState::restore_from_files(None, None);
    assert_eq!(s.date(), "");
    assert!(s.assignments().is_empty());
    let s = DailyState::restore_from_files(Some(r#"{"date": 20240501}"#), Some("[1, 2]"));
    assert_eq!(s.date(), "");
    assert!(s.assignments().is_empty());
    let s = DailyState::restore_from_files(Some("{"), Some("{"));
    assert_eq!(s.date(), "");
    assert!(s.assignments().is_empty());
}

#[test]
fn user_entries_keep_ids_only() {
    let members = vec![
        ("a".to_string(), Some(1u64)),
        ("b".to_string(), None),
        ("c".to_string(), Some(u64::MAX)),
    ];
    assert_eq!(user_entries_of(&members), vec![("a".to_string(), 1), ("c".to_string(), u64::MAX)]);
}
