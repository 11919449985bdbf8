//! The ingestion path: an inbound channel message becomes a note entry
//! exactly when the channel has an active session and the message does
//! not come from an automated author.

use vstd::prelude::*;

use crate::notes::{append_store, create_entry, notes_for, EntryModel};
use crate::session::end_store;
use crate::store::{
    active_session_of, entry_id_taken, has_marker, wf, ScriberStore, StoreModel,
};

verus! {

/// The store after ingesting one channel message: unchanged for automated
/// authors and for channels with no active session; otherwise one note is
/// recorded against the session currently active for the channel.
pub open spec fn ingest_store(
    m: StoreModel,
    channel: int,
    author: int,
    message_id: int,
    content: Seq<char>,
    author_is_automated: bool,
) -> StoreModel {
    if author_is_automated {
        m
    } else {
        match active_session_of(m, channel) {
            Some(s) => append_store(m, content, message_id, author, s),
            None => m,
        }
    }
}

/// Handles one inbound channel message: looks up the channel's active
/// session and, on a hit, records the message as a note entry of that
/// session. Messages from automated authors are ignored.
pub fn handle_new_message(
    db: &mut ScriberStore,
    channel_id: i64,
    author_id: u64,
    message_id: u64,
    content: &String,
    author_is_automated: bool,
)
    requires
        wf(old(db)@),
    ensures
        wf(final(db)@),
        final(db)@ == ingest_store(
            old(db)@,
            channel_id as int,
            author_id as int,
            message_id as int,
            content@,
            author_is_automated,
        ),
{
    if !author_is_automated {
        match crate::session::get_channel_active_session(channel_id, db) {
            Some(active_session) => {
                create_entry(content, message_id, author_id, active_session, db);
            },
            None => {},
        }
    }
}

/// A note ingested while a session is active for its channel — from an
/// author that is not automated, under a fresh source message identifier —
/// is among the notes retrieved for that session.
pub proof fn lemma_note_recorded_while_active(
    m: StoreModel,
    channel: int,
    author: int,
    message_id: int,
    content: Seq<char>,
)
    requires
        active_session_of(m, channel) is Some,
        !entry_id_taken(m, message_id),
    ensures
        ({
            let s = active_session_of(m, channel)->Some_0;
            let m1 = ingest_store(m, channel, author, message_id, content, false);
            notes_for(m1.entries, s).contains(
                EntryModel { id: message_id, content, author, session: s },
            )
        }),
{
    let s = active_session_of(m, channel)->Some_0;
    let m1 = ingest_store(m, channel, author, message_id, content, false);
    let e = EntryModel { id: message_id, content, author, session: s };
    assert(m1.entries == m.entries.push(e));
    assert(m1.entries.drop_last() =~= m.entries);
    assert(m1.entries.last() == e);
    let notes = notes_for(m1.entries, s);
    assert(notes.last() == e);
    assert(notes.contains(e));
}

/// A message submitted for a channel after its session has ended is not
/// recorded at all — in particular it cannot appear under the session
/// that was active before the end.
pub proof fn lemma_note_after_end_not_recorded(
    m: StoreModel,
    channel: int,
    author: int,
    message_id: int,
    content: Seq<char>,
)
    requires
        wf(m),
    ensures
        ({
            let m1 = end_store(m, channel);
            &&& m1.entries == m.entries
            &&& ingest_store(m1, channel, author, message_id, content, false) == m1
        }),
{
    let m1 = end_store(m, channel);
    if has_marker(m, channel) {
        let w = crate::store::marker_index(m, channel);
        assert forall|i: int| 0 <= i < m1.markers.len() implies (#[trigger] m1.markers[i]).channel
            != channel by {
            let j = if i < w {
                i
            } else {
                i + 1
            };
            assert(m1.markers[i] == m.markers[j]);
            if m.markers[j].channel == channel {
                assert(m.markers[w].channel == channel);
            }
        }
        assert(!has_marker(m1, channel));
    } else {
        assert(!has_marker(m1, channel));
    }
}

} // verus!
