use process_monitor::rules::{rule_add, Action, RuleTable};

#[test]
fn empty_table_has_no_rules() {
    let table = RuleTable::new();
    assert_eq!(table.len(), 0);
    assert!(table.get(&"/usr/bin/game".to_string()).is_none());
}

#[test]
fn upsert_then_get_returns_the_action() {
    let mut table = RuleTable::new();
    table.upsert(
        "/usr/bin/game".to_string(),
        Action::SwitchToProfile { profile_name: "gaming".to_string() },
    );
    let got = table.get(&"/usr/bin/game".to_string());
    assert_eq!(
        got,
        Some(&Action::SwitchToProfile { profile_name: "gaming".to_string() })
    );
    assert!(table.get(&"/usr/bin/other".to_string()).is_none());
}

#[test]
fn upsert_overwrites_prior_action_for_same_path() {
    let mut table = RuleTable::new();
    table.upsert(
        "/usr/bin/game".to_string(),
        Action::SwitchToProfile { profile_name: "gaming".to_string() },
    );
    table.upsert(
        "/usr/bin/game".to_string(),
        Action::SwitchToSlot { slot_index: 3 },
    );
    assert_eq!(table.len(), 1);
    assert_eq!(
        table.get(&"/usr/bin/game".to_string()),
        Some(&Action::SwitchToSlot { slot_index: 3 })
    );
}

#[test]
fn remove_drops_the_indexed_entry() {
    let mut table = RuleTable::new();
    table.upsert("/a".to_string(), Action::SwitchToSlot { slot_index: 1 });
    table.upsert("/b".to_string(), Action::SwitchToSlot { slot_index: 2 });
    table.remove(0);
    assert_eq!(table.len(), 1);
    assert!(table.get(&"/a".to_string()).is_none());
    assert_eq!(
        table.get(&"/b".to_string()),
        Some(&Action::SwitchToSlot { slot_index: 2 })
    );
}

#[test]
fn remove_out_of_range_changes_nothing() {
    let mut table = RuleTable::new();
    table.upsert("/a".to_string(), Action::SwitchToSlot { slot_index: 1 });
    table.remove(5);
    assert_eq!(table.len(), 1);
}

#[test]
fn rule_add_with_two_arguments_installs_profile_rule() {
    let mut table = RuleTable::new();
    let args = vec!["/usr/bin/game".to_string(), "gaming".to_string()];
    assert!(rule_add(&mut table, &args));
    assert_eq!(
        table.get(&"/usr/bin/game".to_string()),
        Some(&Action::SwitchToProfile { profile_name: "gaming".to_string() })
    );
}

#[test]
fn rule_add_with_wrong_argument_count_leaves_table_unchanged() {
    let mut table = RuleTable::new();
    table.upsert("/a".to_string(), Action::SwitchToSlot { slot_index: 1 });
    assert!(!rule_add(&mut table, &vec!["/usr/bin/game".to_string()]));
    assert!(!rule_add(
        &mut table,
        &vec!["/a".to_string(), "b".to_string(), "c".to_string()]
    ));
    assert!(!rule_add(&mut table, &vec![]));
    assert_eq!(table.len(), 1);
    assert_eq!(
        table.get(&"/a".to_string()),
        Some(&Action::SwitchToSlot { slot_index: 1 })
    );
}
