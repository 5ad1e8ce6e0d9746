//! Work-session tracker: a timesheet is an ordered list of sessions, and a
//! session is an append-only, validity-checked event log (pauses, resumes,
//! notes, commits) bounded by a start and an end timestamp.
//!
//! This crate holds the data model, the event state machine and the derived
//! time accounting. Storage, git synchronisation and report rendering live
//! with the caller; they exchange plain values with this crate.

pub mod config;
pub mod session;
pub mod timesheet;
pub mod traits;
pub mod util;

use vstd::prelude::*;

verus! {

/// The distinguished fatal-error result: an explicitly supplied timestamp
/// that does not lie strictly after the boundary it must follow. Callers are
/// expected to abort the whole operation and persist nothing.
#[derive(Clone, Copy, Debug, PartialEq, Eq, Structural)]
pub enum FatalError {
    InvalidTimestamp,
}

} // verus!
