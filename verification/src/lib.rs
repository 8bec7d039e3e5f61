//! Process-event monitor, rule store, and dispatch loop for a lighting
//! automation daemon.
//!
//! The daemon watches process start/exit events, matches the launched
//! executable's path against a hot-reloadable rule table, and dispatches a
//! remote action (switch profile / switch slot) over a message bus.  This
//! crate holds the verified core: the rule table and its persistence format,
//! the per-event decision logic, and the dispatch loop's state machine.
//! Threads, channels, signals and all I/O live in the surrounding
//! application, which feeds events in and carries commands out.

pub mod codec;
pub mod dispatch;
pub mod events;
pub mod manifest;
pub mod rules;
pub mod transport;
pub mod util;
pub mod visualizers;
