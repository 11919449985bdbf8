//! Channel-scoped recording sessions with note aggregation and
//! author-grouped transcript rendering.
//!
//! A channel has at most one active session at a time; notes contributed
//! while a session is active are recorded against it, and the accumulated
//! notes of a chosen session can be rendered into a single transcript
//! whose size decides how it is delivered.

use vstd::prelude::*;

pub mod commands;
pub mod handlers;
pub mod ids;
pub mod notes;
pub mod session;
pub mod store;
pub mod utils;

verus! {

/// Error taxonomy of the record-keeping core.
///
/// An absent value (no active session, no sessions at all) is represented
/// by `Option`, never by an error variant.
#[derive(Clone, Copy, Debug, PartialEq, Eq, Structural)]
pub enum ScriberError {
    /// An active session already exists where a new one was to be started,
    /// or the requested session identifier is already taken.
    Conflict,
    /// An identifier failed to parse; nothing was mutated.
    MalformedIdentifier,
}

} // verus!
