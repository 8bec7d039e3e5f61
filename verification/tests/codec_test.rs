use process_monitor::codec::{parse_rules, render_rules};
use process_monitor::rules::{Action, RuleTable};

#[test]
fn parse_compact_document() {
    let table = parse_rules(
        "{\"/usr/bin/game\": {\"SwitchToProfile\": {\"profile_name\": \"gaming\"}}}",
    )
    .unwrap();
    assert_eq!(
        table.get(&"/usr/bin/game".to_string()),
        Some(&Action::SwitchToProfile { profile_name: "gaming".to_string() })
    );
}

#[test]
fn parse_slot_rule_and_whitespace() {
    let doc = "  {\n  \"/bin/foo\"\t:\n {\"SwitchToSlot\": { \"slot_index\" : 2 } } }\n";
    let table = parse_rules(doc).unwrap();
    assert_eq!(
        table.get(&"/bin/foo".to_string()),
        Some(&Action::SwitchToSlot { slot_index: 2 })
    );
}

#[test]
fn parse_empty_document() {
    let table = parse_rules("{}").unwrap();
    assert_eq!(table.len(), 0);
    let table = parse_rules("  { }  ").unwrap();
    assert_eq!(table.len(), 0);
}

#[test]
fn parse_decodes_escapes() {
    let doc = "{\"C:\\\\Games\\\\a \\\"b\\\"\\n\": {\"SwitchToProfile\": {\"profile_name\": \"p\\t\"}}}";
    let table = parse_rules(doc).unwrap();
    assert_eq!(
        table.get(&"C:\\Games\\a \"b\"\n".to_string()),
        Some(&Action::SwitchToProfile { profile_name: "p\t".to_string() })
    );
}

#[test]
fn parse_keeps_later_duplicate() {
    let doc = "{\"/a\": {\"SwitchToSlot\": {\"slot_index\": 1}}, \
               \"/a\": {\"SwitchToSlot\": {\"slot_index\": 2}}}";
    let table = parse_rules(doc).unwrap();
    assert_eq!(table.len(), 1);
    assert_eq!(
        table.get(&"/a".to_string()),
        Some(&Action::SwitchToSlot { slot_index: 2 })
    );
}

#[test]
fn parse_rejects_malformed_documents() {
    assert!(parse_rules("").is_none());
    assert!(parse_rules("[]").is_none());
    assert!(parse_rules("{").is_none());
    assert!(parse_rules("{\"a\": {\"SwitchToSlot\": {\"slot_index\": 1}}").is_none());
    assert!(parse_rules("{\"a\": {\"Unknown\": {\"x\": 1}}}").is_none());
    assert!(parse_rules("{\"a\": {\"SwitchToSlot\": {\"slot_index\": -1}}}").is_none());
    assert!(parse_rules("{\"a\": {\"SwitchToProfile\": {\"profile_name\": \"p\"}}} x").is_none());
    assert!(parse_rules("{\"a\": {\"SwitchToSlot\": {\"slot_index\": 99999999999999999999999999}}}").is_none());
    assert!(parse_rules("{\"a\" {\"SwitchToSlot\": {\"slot_index\": 1}}}").is_none());
    assert!(parse_rules("{\"a\\q\": {\"SwitchToSlot\": {\"slot_index\": 1}}}").is_none());
}

#[test]
fn render_empty_table() {
    let table = RuleTable::new();
    assert_eq!(render_rules(&table), "{}");
}

#[test]
fn render_one_rule_pretty() {
    let mut table = RuleTable::new();
    table.upsert(
        "/usr/bin/game".to_string(),
        Action::SwitchToProfile { profile_name: "gaming".to_string() },
    );
    let expected = "{\n  \"/usr/bin/game\": {\n    \"SwitchToProfile\": {\n      \
                    \"profile_name\": \"gaming\"\n    }\n  }\n}";
    assert_eq!(render_rules(&table), expected);
}

#[test]
fn save_then_load_round_trips_the_mapping() {
    let mut table = RuleTable::new();
    table.upsert(
        "/usr/bin/game".to_string(),
        Action::SwitchToProfile { profile_name: "gaming".to_string() },
    );
    table.upsert("/bin/foo".to_string(), Action::SwitchToSlot { slot_index: 2 });
    table.upsert(
        "we\\ird \"path\"\n".to_string(),
        Action::SwitchToProfile { profile_name: "p".to_string() },
    );
    let text = render_rules(&table);
    let reloaded = parse_rules(&text).unwrap();
    assert_eq!(reloaded.len(), 3);
    assert_eq!(
        reloaded.get(&"/usr/bin/game".to_string()),
        Some(&Action::SwitchToProfile { profile_name: "gaming".to_string() })
    );
    assert_eq!(
        reloaded.get(&"/bin/foo".to_string()),
        Some(&Action::SwitchToSlot { slot_index: 2 })
    );
    assert_eq!(
        reloaded.get(&"we\\ird \"path\"\n".to_string()),
        Some(&Action::SwitchToProfile { profile_name: "p".to_string() })
    );
}

#[test]
fn round_trip_keeps_largest_slot_index() {
    let mut table = RuleTable::new();
    table.upsert("/a".to_string(), Action::SwitchToSlot { slot_index: usize::MAX });
    let reloaded = parse_rules(&render_rules(&table)).unwrap();
    assert_eq!(
        reloaded.get(&"/a".to_string()),
        Some(&Action::SwitchToSlot { slot_index: usize::MAX })
    );
}
