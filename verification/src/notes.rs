//! The note recorder: note-entry records, idempotent ingestion keyed by
//! the source message, and chronological retrieval per session.

use vstd::prelude::*;

use crate::store::{entry_id_taken, session_id_taken, wf, ScriberStore, StoreModel};

verus! {

/// One recorded contribution, tied to its source message and its session.
///
/// The identifier is derived deterministically from the source message
/// identifier (here: it is that identifier), so re-delivery of the same
/// message can never accumulate a duplicate.
pub struct SessionEntry {
    pub id: u64,
    pub content: String,
    pub author: u64,
    pub session: i64,
}

/// The mathematical value of a `SessionEntry`.
#[verifier::ext_equal]
pub ghost struct EntryModel {
    pub id: int,
    pub content: Seq<char>,
    pub author: int,
    pub session: int,
}

impl View for SessionEntry {
    type V = EntryModel;

    open spec fn view(&self) -> EntryModel {
        EntryModel {
            id: self.id as int,
            content: self.content@,
            author: self.author as int,
            session: self.session as int,
        }
    }
}

/// The mathematical values of a sequence of note entries.
pub open spec fn entries_view(v: Seq<SessionEntry>) -> Seq<EntryModel> {
    Seq::new(v.len(), |i: int| v[i]@)
}

/// The store after recording a note: one new entry appended, unless an
/// entry for the same source message already exists, in which case the
/// store is unchanged — the documented idempotent-duplicate case, treated
/// as success rather than as an error.
pub open spec fn append_store(
    m: StoreModel,
    content: Seq<char>,
    id: int,
    author: int,
    session: int,
) -> StoreModel {
    if entry_id_taken(m, id) {
        m
    } else {
        StoreModel {
            sessions: m.sessions,
            markers: m.markers,
            entries: m.entries.push(EntryModel { id, content, author, session }),
        }
    }
}

/// The entries of `entries` that belong to `session`, in their original
/// (chronological, ingestion) order.
pub open spec fn notes_for(entries: Seq<EntryModel>, session: int) -> Seq<EntryModel>
    decreases entries.len(),
{
    if entries.len() == 0 {
        Seq::empty()
    } else if entries.last().session == session {
        notes_for(entries.drop_last(), session).push(entries.last())
    } else {
        notes_for(entries.drop_last(), session)
    }
}

/// How many entries of `entries` carry the identifier `id`.
pub open spec fn entries_with_id(entries: Seq<EntryModel>, id: int) -> nat
    decreases entries.len(),
{
    if entries.len() == 0 {
        0
    } else if entries.last().id == id {
        entries_with_id(entries.drop_last(), id) + 1
    } else {
        entries_with_id(entries.drop_last(), id)
    }
}

proof fn lemma_entries_with_id_zero(entries: Seq<EntryModel>, id: int)
    requires
        forall|i: int| 0 <= i < entries.len() ==> (#[trigger] entries[i]).id != id,
    ensures
        entries_with_id(entries, id) == 0,
    decreases entries.len(),
{
    if entries.len() > 0 {
        lemma_entries_with_id_zero(entries.drop_last(), id);
    }
}

/// Records a note for `session_id`, with the entry identifier derived
/// from the source message identifier, and returns that identifier.
/// Inserting the same source message twice is idempotent: the second
/// attempt changes nothing and still reports success.
#[verifier::loop_isolation(false)]
pub fn create_entry(
    content: &String,
    message_id: u64,
    author_id: u64,
    session_id: i64,
    db: &mut ScriberStore,
) -> (r: u64)
    requires
        wf(old(db)@),
        session_id_taken(old(db)@, session_id as int),
    ensures
        wf(final(db)@),
        final(db)@ == append_store(
            old(db)@,
            content@,
            message_id as int,
            author_id as int,
            session_id as int,
        ),
        r == message_id,
{
    let n = db.entries.len();
    let mut i: usize = 0;
    while i < n
        invariant
            0 <= i <= n,
            n == db.entries.len(),
            *db == *old(db),
            forall|k: int| 0 <= k < i ==> (#[trigger] db@.entries[k]).id != message_id as int,
        decreases n - i,
    {
        if db.entries[i].id == message_id {
            proof {
                assert(db@.entries[i as int].id == message_id as int);
            }
            return message_id;
        }
        i = i + 1;
    }
    assert(!entry_id_taken(db@, message_id as int));
    let ghost m0 = db@;
    db.entries.push(
        SessionEntry {
            id: message_id,
            content: content.clone(),
            author: author_id,
            session: session_id,
        },
    );
    proof {
        let m1 = db@;
        let target = append_store(
            m0,
            content@,
            message_id as int,
            author_id as int,
            session_id as int,
        );
        assert(m1.entries =~= target.entries);
        assert(m1.sessions =~= target.sessions);
        assert(m1.markers =~= target.markers);
        assert(m1 =~= target);
        assert forall|a: int, b: int| 0 <= a < b < m1.entries.len() implies (
        #[trigger] m1.entries[a]).id != (#[trigger] m1.entries[b]).id by {
            if b == m1.entries.len() - 1 {
                assert(m1.entries[a] == m0.entries[a]);
            }
        }
    }
    message_id
}

/// Retrieves all entries recorded for `session_id`, in the order they
/// were ingested — the chronological order the transcript builder needs.
pub fn get_for_session(session_id: i64, db: &ScriberStore) -> (r: Vec<SessionEntry>)
    ensures
        entries_view(r@) == notes_for(db@.entries, session_id as int),
{
    let n = db.entries.len();
    let mut r: Vec<SessionEntry> = Vec::new();
    let mut i: usize = 0;
    while i < n
        invariant
            0 <= i <= n,
            n == db.entries.len(),
            entries_view(r@) =~= notes_for(db@.entries.take(i as int), session_id as int),
        decreases n - i,
    {
        proof {
            assert(db@.entries.take(i + 1).drop_last() =~= db@.entries.take(i as int));
            assert(db@.entries.take(i + 1).last() == db@.entries[i as int]);
        }
        let e = &db.entries[i];
        if e.session == session_id {
            r.push(
                SessionEntry {
                    id: e.id,
                    content: e.content.clone(),
                    author: e.author,
                    session: e.session,
                },
            );
        }
        proof {
            assert(entries_view(r@) =~= notes_for(db@.entries.take(i + 1), session_id as int));
        }
        i = i + 1;
    }
    proof {
        assert(db@.entries.take(n as int) =~= db@.entries);
    }
    r
}

/// At most one note entry ever exists per source message: recording a
/// message leaves exactly one entry with its identifier, and recording
/// the same source message again — whatever content, author or session
/// accompanies it — changes nothing.
pub proof fn lemma_reingest_idempotent(
    m: StoreModel,
    content: Seq<char>,
    id: int,
    author: int,
    session: int,
    content2: Seq<char>,
    author2: int,
    session2: int,
)
    requires
        !entry_id_taken(m, id),
    ensures
        ({
            let m1 = append_store(m, content, id, author, session);
            &&& entries_with_id(m1.entries, id) == 1
            &&& append_store(m1, content2, id, author2, session2) == m1
        }),
{
    let m1 = append_store(m, content, id, author, session);
    assert forall|i: int| 0 <= i < m.entries.len() implies (#[trigger] m.entries[i]).id != id by {}
    lemma_entries_with_id_zero(m.entries, id);
    assert(m1.entries.drop_last() =~= m.entries);
    assert(m1.entries.last().id == id);
    assert(entry_id_taken(m1, id));
}

} // verus!
