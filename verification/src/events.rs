use vstd::prelude::*;

verus! {

/// Kind of a raw process lifecycle notification.  The underlying OS source
/// reports more kinds; only exec and exit drive this daemon, everything else
/// is classified as `Other` and ignored.
#[derive(Debug, Clone, Copy, PartialEq, Eq, Structural)]
pub enum EventKind {
    Exec,
    Exit,
    Other,
}

/// A raw process lifecycle event as the monitor thread receives it: the kind
/// and the process id.  It carries no file name; that is resolved separately,
/// best-effort, from the pid.
#[derive(Debug, Clone, Copy, PartialEq, Eq, Structural)]
pub struct ProcessEvent {
    pub kind: EventKind,
    pub pid: i32,
}

/// A typed event on the system-event channel: a process started or ended,
/// with the executable's path when the pid could still be resolved.
#[derive(Debug, PartialEq)]
pub enum SystemEvent {
    ProcessExec { event: ProcessEvent, file_name: Option<String> },
    ProcessExit { event: ProcessEvent, file_name: Option<String> },
}

/// A typed event on the filesystem-event channel: the rule file's on-disk
/// content changed.
#[derive(Debug, Clone, PartialEq, Eq, Structural)]
pub enum FileSystemEvent {
    RulesChanged,
}

/// The two files the filesystem watcher observes.
#[derive(Debug, Clone, Copy, PartialEq, Eq, Structural)]
pub enum WatchedFile {
    ConfigFile,
    RuleFile,
}

/// Monitor-thread decision: which [`SystemEvent`] a raw process event turns
/// into, given the best-effort resolved file name.  Exec and exit events are
/// forwarded; every other kind is dropped.
pub fn system_event_for(event: ProcessEvent, file_name: Option<String>) -> (r: Option<SystemEvent>)
    ensures
        match r {
            Some(se) => match se {
                SystemEvent::ProcessExec { event: e, file_name: f } => event.kind
                    == EventKind::Exec && e == event && f == file_name,
                SystemEvent::ProcessExit { event: e, file_name: f } => event.kind
                    == EventKind::Exit && e == event && f == file_name,
            },
            None => event.kind == EventKind::Other,
        },
{
    match event.kind {
        EventKind::Exec => Some(SystemEvent::ProcessExec { event, file_name }),
        EventKind::Exit => Some(SystemEvent::ProcessExit { event, file_name }),
        EventKind::Other => None,
    }
}

/// Watcher-thread decision: only a rule-file change yields a channel event.
/// A config-file change is load-once, so it produces no event — the watcher
/// merely logs that a restart is required.
pub fn fs_event_for(file: WatchedFile) -> (r: Option<FileSystemEvent>)
    ensures
        r == (match file {
            WatchedFile::RuleFile => Some(FileSystemEvent::RulesChanged),
            WatchedFile::ConfigFile => None::<FileSystemEvent>,
        }),
{
    match file {
        WatchedFile::RuleFile => Some(FileSystemEvent::RulesChanged),
        WatchedFile::ConfigFile => None,
    }
}

/// Debounce state for the filesystem watcher: rapid successive writes within
/// the window are coalesced into one emitted event.
#[derive(Debug, Clone, Copy, PartialEq, Eq)]
pub struct Debouncer {
    /// Width of the coalescing window, in milliseconds.
    pub window_ms: u64,
    /// Time of the last emitted event, in milliseconds; `None` before the
    /// first emission.
    pub last_emit_ms: Option<u64>,
}

impl Debouncer {
    /// A fresh debouncer with the given window.
    pub fn new(window_ms: u64) -> (r: Debouncer)
        ensures
            r.window_ms == window_ms,
            r.last_emit_ms is None,
    {
        Debouncer { window_ms, last_emit_ms: None }
    }

    /// Whether a raw change notification at time `now_ms` should be forwarded.
    /// The first notification always passes; later ones pass exactly when the
    /// window since the last forwarded one has elapsed, and each forwarded
    /// notification starts a new window.
    pub fn observe(&mut self, now_ms: u64) -> (emit: bool)
        ensures
            emit == (match old(self).last_emit_ms {
                None => true,
                Some(t) => now_ms >= t + old(self).window_ms,
            }),
            emit ==> final(self).last_emit_ms == Some(now_ms),
            !emit ==> *final(self) == *old(self),
            final(self).window_ms == old(self).window_ms,
    {
        let emit = match self.last_emit_ms {
            None => true,
            Some(t) => now_ms >= t && now_ms - t >= self.window_ms,
        };
        if emit {
            self.last_emit_ms = Some(now_ms);
        }
        emit
    }
}

} // verus!
