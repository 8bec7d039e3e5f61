use process_monitor::codec::parse_rules;
use process_monitor::dispatch::{
    DispatchError, DispatchRequest, ErrorPolicy, EventBus, LoopCommand, LoopInput, ReloadError,
};
use process_monitor::events::{EventKind, FileSystemEvent, ProcessEvent, SystemEvent};
use process_monitor::rules::{Action, RuleTable};

fn exec_event(path: &str) -> LoopInput {
    LoopInput::System(SystemEvent::ProcessExec {
        event: ProcessEvent { kind: EventKind::Exec, pid: 4242 },
        file_name: Some(path.to_string()),
    })
}

fn game_table() -> RuleTable {
    let mut table = RuleTable::new();
    table.upsert(
        "/usr/bin/game".to_string(),
        Action::SwitchToProfile { profile_name: "gaming".to_string() },
    );
    table
}

#[test]
fn matching_exec_event_dispatches_exactly_its_action() {
    let mut bus = EventBus::new(game_table());
    let cmd = bus.step(false, &exec_event("/usr/bin/game"));
    assert_eq!(
        cmd,
        LoopCommand::Dispatch(DispatchRequest::SwitchProfile {
            profile_name: "gaming".to_string()
        })
    );
    assert!(!bus.is_stopped());
}

#[test]
fn unmatched_exec_event_dispatches_nothing() {
    let mut bus = EventBus::new(game_table());
    let cmd = bus.step(false, &exec_event("/usr/bin/unknown"));
    assert_eq!(cmd, LoopCommand::Idle);
    assert!(!bus.is_stopped());
}

#[test]
fn unresolved_file_name_is_dropped() {
    let mut bus = EventBus::new(game_table());
    let cmd = bus.step(
        false,
        &LoopInput::System(SystemEvent::ProcessExec {
            event: ProcessEvent { kind: EventKind::Exec, pid: 1 },
            file_name: None,
        }),
    );
    assert_eq!(cmd, LoopCommand::Idle);
}

#[test]
fn exit_events_trigger_no_action() {
    let mut bus = EventBus::new(game_table());
    let cmd = bus.step(
        false,
        &LoopInput::System(SystemEvent::ProcessExit {
            event: ProcessEvent { kind: EventKind::Exit, pid: 1 },
            file_name: Some("/usr/bin/game".to_string()),
        }),
    );
    assert_eq!(cmd, LoopCommand::Idle);
}

#[test]
fn slot_rule_dispatches_slot_switch() {
    let mut table = RuleTable::new();
    table.upsert("/bin/foo".to_string(), Action::SwitchToSlot { slot_index: 2 });
    let mut bus = EventBus::new(table);
    let cmd = bus.step(false, &exec_event("/bin/foo"));
    assert_eq!(
        cmd,
        LoopCommand::Dispatch(DispatchRequest::SwitchSlot { slot_index: 2 })
    );
}

#[test]
fn shutdown_flag_halts_within_one_step() {
    let mut bus = EventBus::new(game_table());
    let cmd = bus.step(true, &exec_event("/usr/bin/game"));
    assert_eq!(cmd, LoopCommand::Halt);
    assert!(bus.is_stopped());
}

#[test]
fn failed_dispatch_stops_the_loop_for_good() {
    let mut bus = EventBus::new(game_table());
    let cmd = bus.step(false, &exec_event("/usr/bin/game"));
    assert!(matches!(cmd, LoopCommand::Dispatch(_)));
    bus.apply_dispatch_result(&Err(DispatchError::Timeout));
    assert!(bus.is_stopped());
    // an event already queued on the channel is never processed
    let cmd = bus.step(false, &exec_event("/usr/bin/game"));
    assert_eq!(cmd, LoopCommand::Halt);
    assert!(bus.is_stopped());
}

#[test]
fn successful_dispatch_keeps_the_loop_running() {
    let mut bus = EventBus::new(game_table());
    bus.step(false, &exec_event("/usr/bin/game"));
    bus.apply_dispatch_result(&Ok(()));
    assert!(!bus.is_stopped());
}

#[test]
fn rules_changed_event_asks_for_a_reload() {
    let mut bus = EventBus::new(game_table());
    let cmd = bus.step(false, &LoopInput::Filesystem(FileSystemEvent::RulesChanged));
    assert_eq!(cmd, LoopCommand::Reload);
}

#[test]
fn reload_swaps_in_the_new_table_wholesale() {
    let mut bus = EventBus::new(game_table());
    let changed = parse_rules(
        "{\"/usr/bin/game\": {\"SwitchToProfile\": {\"profile_name\": \"gaming\"}}, \
          \"/bin/foo\": {\"SwitchToSlot\": {\"slot_index\": 2}}}",
    )
    .unwrap();
    let cmd = bus.step(false, &LoopInput::Filesystem(FileSystemEvent::RulesChanged));
    assert_eq!(cmd, LoopCommand::Reload);
    bus.apply_reload(Ok(changed));
    assert!(!bus.is_stopped());
    assert_eq!(
        bus.table().get(&"/bin/foo".to_string()),
        Some(&Action::SwitchToSlot { slot_index: 2 })
    );
    let cmd = bus.step(false, &exec_event("/bin/foo"));
    assert_eq!(
        cmd,
        LoopCommand::Dispatch(DispatchRequest::SwitchSlot { slot_index: 2 })
    );
}

#[test]
fn failed_reload_stops_the_loop_and_keeps_the_old_table() {
    let mut bus = EventBus::new(game_table());
    bus.apply_reload(Err(ReloadError::Parse));
    assert!(bus.is_stopped());
    assert_eq!(
        bus.table().get(&"/usr/bin/game".to_string()),
        Some(&Action::SwitchToProfile { profile_name: "gaming".to_string() })
    );
    assert_eq!(bus.step(false, &exec_event("/usr/bin/game")), LoopCommand::Halt);
}

#[test]
fn isolating_policy_survives_a_failed_dispatch() {
    let mut bus = EventBus::with_policy(game_table(), ErrorPolicy::Isolate);
    bus.step(false, &exec_event("/usr/bin/game"));
    bus.apply_dispatch_result(&Err(DispatchError::Timeout));
    assert!(!bus.is_stopped());
    bus.apply_reload(Err(ReloadError::Io));
    assert!(!bus.is_stopped());
    // the next matching event is still dispatched
    let cmd = bus.step(false, &exec_event("/usr/bin/game"));
    assert!(matches!(cmd, LoopCommand::Dispatch(_)));
}
