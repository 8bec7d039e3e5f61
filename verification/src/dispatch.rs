use vstd::prelude::*;

use crate::events::{FileSystemEvent, SystemEvent};
use crate::rules::{Action, ActionModel, RuleTable};

verus! {

/// One remote call against the lighting daemon's bus: the concrete request
/// that an [`Action`] resolves to.
#[derive(Debug, PartialEq)]
pub enum DispatchRequest {
    SwitchProfile { profile_name: String },
    SwitchSlot { slot_index: u64 },
}

/// Mathematical model of a [`DispatchRequest`].
pub enum RequestModel {
    Profile { name: Seq<char> },
    Slot { index: nat },
}

impl View for DispatchRequest {
    type V = RequestModel;

    open spec fn view(&self) -> RequestModel {
        match self {
            DispatchRequest::SwitchProfile { profile_name } => RequestModel::Profile {
                name: profile_name@,
            },
            DispatchRequest::SwitchSlot { slot_index } => RequestModel::Slot {
                index: *slot_index as nat,
            },
        }
    }
}

/// The request that carries out a given action.
pub open spec fn request_of(a: ActionModel) -> RequestModel {
    match a {
        ActionModel::Profile { name } => RequestModel::Profile { name },
        ActionModel::Slot { index } => RequestModel::Slot { index },
    }
}

/// Why a remote dispatch call failed: no connection to the bus, the call ran
/// into its timeout, or the remote end reported failure.
#[derive(Debug, Clone, PartialEq, Eq, Structural)]
pub enum DispatchError {
    ConnectionFailed,
    Timeout,
    RemoteFailure,
}

/// Why reloading the rule file failed.
#[derive(Debug, Clone, PartialEq, Eq, Structural)]
pub enum ReloadError {
    /// The file was missing or unreadable.
    Io,
    /// The file's content was not a valid rule-table document.
    Parse,
}

/// What a failed dispatch or reload does to the loop.  The observed, default
/// behavior is fail-fast: one failed remote call or reload stops the loop
/// for the remainder of the process's life.  Isolating failures instead —
/// log and carry on — is offered as an explicit choice, never assumed.
#[derive(Debug, Clone, Copy, PartialEq, Eq, Structural)]
pub enum ErrorPolicy {
    FailFast,
    Isolate,
}

/// The dispatch loop's state: it runs until the shutdown flag is observed or
/// an error makes it give up; `Stopped` is terminal.
#[derive(Debug, Clone, Copy, PartialEq, Eq, Structural)]
pub enum LoopState {
    Running,
    Stopped,
}

/// What the surrounding application must do after one loop step.
#[derive(Debug, PartialEq)]
pub enum LoopCommand {
    /// Issue this remote call, then report the outcome through
    /// [`EventBus::apply_dispatch_result`].
    Dispatch(DispatchRequest),
    /// Re-read the rule file, then report the outcome through
    /// [`EventBus::apply_reload`].
    Reload,
    /// Nothing to do for this event.
    Idle,
    /// The loop is over; stop feeding events.
    Halt,
}

/// An event arriving at the loop's select point, from either channel.
#[derive(Debug)]
pub enum LoopInput {
    System(SystemEvent),
    Filesystem(FileSystemEvent),
}

/// The shape of a [`LoopCommand`], without its payload.
#[derive(Debug, Clone, Copy, PartialEq, Eq, Structural)]
pub enum CommandKind {
    Dispatch,
    Reload,
    Idle,
    Halt,
}

/// The shape of a given command.
pub open spec fn command_kind(cmd: LoopCommand) -> CommandKind {
    match cmd {
        LoopCommand::Dispatch(_) => CommandKind::Dispatch,
        LoopCommand::Reload => CommandKind::Reload,
        LoopCommand::Idle => CommandKind::Idle,
        LoopCommand::Halt => CommandKind::Halt,
    }
}

/// The kind of work one loop step owes for a given input, given the loop
/// state, the shutdown flag and the rule mapping.  This is the dispatch
/// loop's whole decision; [`EventBus::step`] computes it, and additionally
/// pins the dispatched request's payload to the matched rule's action.
pub open spec fn step_kind(
    state: LoopState,
    shutdown: bool,
    table: Map<Seq<char>, ActionModel>,
    input: LoopInput,
) -> CommandKind {
    if state == LoopState::Stopped || shutdown {
        CommandKind::Halt
    } else {
        match input {
            LoopInput::System(SystemEvent::ProcessExec { event: _, file_name }) => match file_name {
                Some(f) => if table.contains_key(f@) {
                    CommandKind::Dispatch
                } else {
                    CommandKind::Idle
                },
                None => CommandKind::Idle,
            },
            LoopInput::System(SystemEvent::ProcessExit { .. }) => CommandKind::Idle,
            LoopInput::Filesystem(FileSystemEvent::RulesChanged) => CommandKind::Reload,
        }
    }
}

/// The dispatch loop's verified core: the loop state together with the rule
/// table it consults.  The surrounding application owns the channels and the
/// remote bus; it feeds each received event through [`EventBus::step`] and
/// reports outcomes back.  The table is swapped wholesale on reload, so no
/// caller ever observes a partially merged table.
#[derive(Debug)]
pub struct EventBus {
    state: LoopState,
    table: RuleTable,
    policy: ErrorPolicy,
}

impl EventBus {
    /// The current loop state.
    pub closed spec fn state(&self) -> LoopState {
        self.state
    }

    /// The rule mapping currently consulted.
    pub closed spec fn table_map(&self) -> Map<Seq<char>, ActionModel> {
        self.table@
    }

    pub closed spec fn wf(&self) -> bool {
        self.table.wf()
    }

    /// The configured reaction to a failed dispatch or reload.
    pub closed spec fn policy(&self) -> ErrorPolicy {
        self.policy
    }

    /// A bus in its initial state: running, consulting `table`, failing fast
    /// on errors as the daemon always has.
    pub fn new(table: RuleTable) -> (r: EventBus)
        requires
            table.wf(),
        ensures
            r.wf(),
            r.state() == LoopState::Running,
            r.table_map() == table@,
            r.policy() == ErrorPolicy::FailFast,
    {
        EventBus { state: LoopState::Running, table, policy: ErrorPolicy::FailFast }
    }

    /// A bus with the error reaction chosen explicitly.
    pub fn with_policy(table: RuleTable, policy: ErrorPolicy) -> (r: EventBus)
        requires
            table.wf(),
        ensures
            r.wf(),
            r.state() == LoopState::Running,
            r.table_map() == table@,
            r.policy() == policy,
    {
        EventBus { state: LoopState::Running, table, policy }
    }

    /// Whether the loop has reached its terminal state.
    pub fn is_stopped(&self) -> (r: bool)
        ensures
            r == (self.state() == LoopState::Stopped),
    {
        match self.state {
            LoopState::Stopped => true,
            LoopState::Running => false,
        }
    }

    /// Read access to the table, for listing rules.
    pub fn table(&self) -> (r: &RuleTable)
        ensures
            r@ == self.table_map(),
            self.wf() ==> r.wf(),
    {
        &self.table
    }

    /// One iteration of the dispatch loop, up to the point where outside work
    /// starts.  Checking the shutdown flag comes first: once it is observed
    /// the loop halts within this very step, before looking at any event.  A
    /// running loop resolves an exec event against the table and owes exactly
    /// one dispatch when a rule matches and none otherwise; a rules-changed
    /// event owes a reload; everything else is idle.
    pub fn step(&mut self, shutdown: bool, input: &LoopInput) -> (cmd: LoopCommand)
        requires
            old(self).wf(),
        ensures
            final(self).wf(),
            final(self).table_map() == old(self).table_map(),
            command_kind(cmd) == step_kind(
                old(self).state(),
                shutdown,
                old(self).table_map(),
                *input,
            ),
            // the shutdown flag and a stopped loop halt, touching nothing else
            (old(self).state() == LoopState::Stopped || shutdown) ==> cmd is Halt
                && final(self).state() == (if shutdown {
                LoopState::Stopped
            } else {
                old(self).state()
            }),
            // a running loop stays running during the step itself
            (old(self).state() == LoopState::Running && !shutdown) ==> final(self).state()
                == LoopState::Running && (match input {
                LoopInput::System(SystemEvent::ProcessExec { event: _, file_name }) => match (
                file_name) {
                    Some(f) => if old(self).table_map().contains_key(f@) {
                        cmd matches LoopCommand::Dispatch(r) && r@ == request_of(
                            old(self).table_map()[f@],
                        )
                    } else {
                        cmd is Idle
                    },
                    None => cmd is Idle,
                },
                LoopInput::System(SystemEvent::ProcessExit { .. }) => cmd is Idle,
                LoopInput::Filesystem(FileSystemEvent::RulesChanged) => cmd is Reload,
            }),
    {
        if shutdown {
            self.state = LoopState::Stopped;
            return LoopCommand::Halt;
        }
        match self.state {
            LoopState::Stopped => LoopCommand::Halt,
            LoopState::Running => match input {
                LoopInput::System(SystemEvent::ProcessExec { event: _, file_name }) => match
                    file_name {
                    Some(f) => match self.table.get(f) {
                        Some(action) => match action {
                            Action::SwitchToProfile { profile_name } => LoopCommand::Dispatch(
                                DispatchRequest::SwitchProfile {
                                    profile_name: profile_name.clone(),
                                },
                            ),
                            Action::SwitchToSlot { slot_index } => LoopCommand::Dispatch(
                                DispatchRequest::SwitchSlot { slot_index: *slot_index as u64 },
                            ),
                        },
                        None => LoopCommand::Idle,
                    },
                    None => LoopCommand::Idle,
                },
                LoopInput::System(SystemEvent::ProcessExit { .. }) => LoopCommand::Idle,
                LoopInput::Filesystem(FileSystemEvent::RulesChanged) => LoopCommand::Reload,
            },
        }
    }

    /// Fold the outcome of a remote call back in.  Under the fail-fast
    /// policy a failed call is fatal: the loop stops and never processes
    /// another event.  Under isolation the failure is the caller's to log,
    /// and the loop keeps running.
    pub fn apply_dispatch_result(&mut self, result: &Result<(), DispatchError>)
        requires
            old(self).wf(),
        ensures
            final(self).wf(),
            final(self).table_map() == old(self).table_map(),
            final(self).policy() == old(self).policy(),
            result is Ok ==> final(self).state() == old(self).state(),
            result is Err ==> final(self).state() == (if old(self).policy()
                == ErrorPolicy::FailFast {
                LoopState::Stopped
            } else {
                old(self).state()
            }),
    {
        if result.is_err() {
            match self.policy {
                ErrorPolicy::FailFast => {
                    self.state = LoopState::Stopped;
                },
                ErrorPolicy::Isolate => {
                },
            }
        }
    }

    /// Fold the outcome of a rule reload back in.  A fresh table replaces the
    /// old one as one whole snapshot — afterwards every lookup sees exactly
    /// the new mapping.  A failed reload keeps the old table and is treated
    /// like a failed dispatch: fatal under fail-fast, logged and survived
    /// under isolation.
    pub fn apply_reload(&mut self, result: Result<RuleTable, ReloadError>)
        requires
            old(self).wf(),
            result matches Ok(t) ==> t.wf(),
        ensures
            final(self).wf(),
            final(self).policy() == old(self).policy(),
            result matches Ok(t) ==> final(self).table_map() == t@ && final(self).state() == old(
                self,
            ).state(),
            result is Err ==> final(self).table_map() == old(self).table_map()
                && final(self).state() == (if old(self).policy() == ErrorPolicy::FailFast {
                LoopState::Stopped
            } else {
                old(self).state()
            }),
    {
        match result {
            Ok(t) => {
                self.table = t;
            },
            Err(_) => {
                match self.policy {
                    ErrorPolicy::FailFast => {
                        self.state = LoopState::Stopped;
                    },
                    ErrorPolicy::Isolate => {
                    },
                }
            },
        }
    }
}

/// For every rule in the table, an exec event whose resolved path is the
/// rule's path makes a running loop owe exactly one dispatch — and
/// [`EventBus::step`] pins that dispatch's request to the rule's own action.
pub proof fn lemma_matched_exec_dispatches(
    table: Map<Seq<char>, ActionModel>,
    input: LoopInput,
)
    requires
        input matches LoopInput::System(SystemEvent::ProcessExec { event: _, file_name })
            && (file_name matches Some(f) && table.contains_key(f@)),
    ensures
        step_kind(LoopState::Running, false, table, input) == CommandKind::Dispatch,
{
}

/// An exec event whose resolved path has no table entry causes no dispatch,
/// and neither does one whose path could not be resolved.
pub proof fn lemma_unmatched_exec_is_silent(
    table: Map<Seq<char>, ActionModel>,
    input: LoopInput,
)
    requires
        input matches LoopInput::System(SystemEvent::ProcessExec { event: _, file_name })
            && (file_name matches Some(f) ==> !table.contains_key(f@)),
    ensures
        step_kind(LoopState::Running, false, table, input) == CommandKind::Idle,
{
}

/// Once the loop has stopped — after a shutdown, a failed dispatch or a
/// failed reload — no later input is ever acted on: every further step
/// halts at once, whatever is still queued on the channels.
pub proof fn lemma_stopped_is_terminal(bus: EventBus, shutdown: bool, input: LoopInput)
    requires
        bus.state() == LoopState::Stopped,
    ensures
        step_kind(bus.state(), shutdown, bus.table_map(), input) == CommandKind::Halt,
{
}

} // verus!
