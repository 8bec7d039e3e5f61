use process_monitor::events::{
    fs_event_for, system_event_for, Debouncer, EventKind, FileSystemEvent, ProcessEvent,
    SystemEvent, WatchedFile,
};

#[test]
fn exec_events_are_forwarded_with_their_file_name() {
    let ev = ProcessEvent { kind: EventKind::Exec, pid: 7 };
    let out = system_event_for(ev, Some("/usr/bin/game".to_string()));
    assert_eq!(
        out,
        Some(SystemEvent::ProcessExec {
            event: ev,
            file_name: Some("/usr/bin/game".to_string())
        })
    );
}

#[test]
fn exit_events_are_forwarded_too() {
    let ev = ProcessEvent { kind: EventKind::Exit, pid: 7 };
    let out = system_event_for(ev, None);
    assert_eq!(out, Some(SystemEvent::ProcessExit { event: ev, file_name: None }));
}

#[test]
fn other_event_kinds_are_dropped() {
    let ev = ProcessEvent { kind: EventKind::Other, pid: 7 };
    assert_eq!(system_event_for(ev, None), None);
}

#[test]
fn only_the_rule_file_triggers_a_reload_event() {
    assert_eq!(fs_event_for(WatchedFile::RuleFile), Some(FileSystemEvent::RulesChanged));
    assert_eq!(fs_event_for(WatchedFile::ConfigFile), None);
}

#[test]
fn debouncer_coalesces_a_burst_into_one_event() {
    let mut d = Debouncer::new(1000);
    assert!(d.observe(5000));
    assert!(!d.observe(5100));
    assert!(!d.observe(5999));
    assert!(d.observe(6000));
    assert!(!d.observe(6500));
    assert!(d.observe(8000));
}

#[test]
fn debouncer_ignores_clock_going_backwards() {
    let mut d = Debouncer::new(1000);
    assert!(d.observe(5000));
    assert!(!d.observe(4000));
    assert!(d.observe(6000));
}
