//! The record store shared by the session manager and the note recorder:
//! session records, per-channel active-session markers, and note entries,
//! together with its mathematical model and well-formedness invariant.

use vstd::prelude::*;

use crate::notes::{EntryModel, SessionEntry};
use crate::session::{ChannelState, MarkerModel, ScriberSession, SessionModel};

verus! {

/// The mathematical value of the whole store.
#[verifier::ext_equal]
pub ghost struct StoreModel {
    /// Every session ever created, in creation order.
    pub sessions: Seq<SessionModel>,
    /// The live active-session markers, at most one per channel.
    pub markers: Seq<MarkerModel>,
    /// Every note entry ever recorded, in ingestion order.
    pub entries: Seq<EntryModel>,
}

/// The store behind every session, marker and note operation.
///
/// All access goes through the operations of this crate; those operations
/// establish and preserve `wf` and never mutate records ad hoc.
pub struct ScriberStore {
    pub sessions: Vec<ScriberSession>,
    pub channel_states: Vec<ChannelState>,
    pub entries: Vec<SessionEntry>,
}

impl View for ScriberStore {
    type V = StoreModel;

    open spec fn view(&self) -> StoreModel {
        StoreModel {
            sessions: Seq::new(self.sessions@.len(), |i: int| self.sessions@[i]@),
            markers: Seq::new(self.channel_states@.len(), |i: int| self.channel_states@[i]@),
            entries: Seq::new(self.entries@.len(), |i: int| self.entries@[i]@),
        }
    }
}

/// Whether some session of the store carries the identifier `id`.
pub open spec fn session_id_taken(m: StoreModel, id: int) -> bool {
    exists|i: int| 0 <= i < m.sessions.len() && (#[trigger] m.sessions[i]).id == id
}

/// Whether some note entry of the store carries the identifier `id`.
pub open spec fn entry_id_taken(m: StoreModel, id: int) -> bool {
    exists|i: int| 0 <= i < m.entries.len() && (#[trigger] m.entries[i]).id == id
}

/// Whether an active-session marker exists for `channel`.
pub open spec fn has_marker(m: StoreModel, channel: int) -> bool {
    exists|i: int| 0 <= i < m.markers.len() && (#[trigger] m.markers[i]).channel == channel
}

/// The position of the marker for `channel` (meaningful under `has_marker`).
pub open spec fn marker_index(m: StoreModel, channel: int) -> int {
    choose|i: int| 0 <= i < m.markers.len() && (#[trigger] m.markers[i]).channel == channel
}

/// The session the marker for `channel` points to, if a marker exists.
///
/// The presence of this value is the "a session is active here" predicate.
pub open spec fn active_session_of(m: StoreModel, channel: int) -> Option<int> {
    if has_marker(m, channel) {
        Some(m.markers[marker_index(m, channel)].session)
    } else {
        None
    }
}

/// Well-formedness of the store:
/// session identifiers are unique; at most one marker exists per channel;
/// every marker points to an existing session; note-entry identifiers are
/// unique; every note entry belongs to an existing session.
pub open spec fn wf(m: StoreModel) -> bool {
    &&& forall|i: int, j: int|
        0 <= i < j < m.sessions.len() ==> (#[trigger] m.sessions[i]).id != (
        #[trigger] m.sessions[j]).id
    &&& forall|i: int, j: int|
        0 <= i < j < m.markers.len() ==> (#[trigger] m.markers[i]).channel != (
        #[trigger] m.markers[j]).channel
    &&& forall|i: int|
        0 <= i < m.markers.len() ==> session_id_taken(m, (#[trigger] m.markers[i]).session)
    &&& forall|i: int, j: int|
        0 <= i < j < m.entries.len() ==> (#[trigger] m.entries[i]).id != (
        #[trigger] m.entries[j]).id
    &&& forall|i: int|
        0 <= i < m.entries.len() ==> session_id_taken(m, (#[trigger] m.entries[i]).session)
}

impl ScriberStore {
    /// An empty, well-formed store: no sessions, no markers, no entries.
    pub fn new() -> (r: ScriberStore)
        ensures
            r@.sessions.len() == 0,
            r@.markers.len() == 0,
            r@.entries.len() == 0,
            wf(r@),
    {
        ScriberStore { sessions: Vec::new(), channel_states: Vec::new(), entries: Vec::new() }
    }
}

} // verus!
