//! The session manager: session and marker records, the start / end /
//! lookup / list operations, and the channel-exclusivity law.

use vstd::prelude::*;

use crate::store::{
    active_session_of, has_marker, marker_index, session_id_taken, wf, ScriberStore, StoreModel,
};
use crate::ScriberError;

verus! {

/// A named, time-stamped recording window scoped to one channel.
///
/// Created exactly once by a start request, never mutated, never deleted:
/// historical sessions stay queryable indefinitely.
pub struct ScriberSession {
    pub id: i64,
    pub created_at: i64,
    pub name: String,
}

/// The mathematical value of a `ScriberSession`.
#[verifier::ext_equal]
pub ghost struct SessionModel {
    pub id: int,
    pub created_at: int,
    pub name: Seq<char>,
}

impl View for ScriberSession {
    type V = SessionModel;

    open spec fn view(&self) -> SessionModel {
        SessionModel { id: self.id as int, created_at: self.created_at as int, name: self.name@ }
    }
}

/// The per-channel marker whose presence means "a session is currently
/// being recorded in this channel". It points to its session by identifier
/// and does not own the session's lifecycle.
pub struct ChannelState {
    pub id: i64,
    pub active_session: i64,
}

/// The mathematical value of a `ChannelState`.
#[verifier::ext_equal]
pub ghost struct MarkerModel {
    pub channel: int,
    pub session: int,
}

impl View for ChannelState {
    type V = MarkerModel;

    open spec fn view(&self) -> MarkerModel {
        MarkerModel { channel: self.id as int, session: self.active_session as int }
    }
}

/// The greatest session identifier in `sessions`, at least zero.
pub open spec fn max_session_id(sessions: Seq<SessionModel>) -> int
    decreases sessions.len(),
{
    if sessions.len() == 0 {
        0
    } else if sessions.last().id >= max_session_id(sessions.drop_last()) {
        sessions.last().id
    } else {
        max_session_id(sessions.drop_last())
    }
}

/// The identifier generated for a session when the caller supplies none:
/// strictly greater than every identifier already in use, so monotonically
/// increasing over the life of the store.
pub open spec fn generated_session_id(m: StoreModel) -> int {
    max_session_id(m.sessions) + 1
}

/// The identifier a start request settles on: the caller's, if supplied,
/// otherwise a freshly generated one.
pub open spec fn start_session_id(m: StoreModel, id: Option<int>) -> int {
    match id {
        Some(v) => v,
        None => generated_session_id(m),
    }
}

/// Whether a start request must be refused: the channel already has an
/// active session, or the requested session identifier is already taken.
pub open spec fn start_conflict(m: StoreModel, id: Option<int>, channel: int) -> bool {
    has_marker(m, channel) || (id matches Some(v) && session_id_taken(m, v))
}

/// The store after a successful start: one new session record and one new
/// marker for `channel`, created together; nothing else is touched.
pub open spec fn start_store(
    m: StoreModel,
    id: Option<int>,
    name: Seq<char>,
    channel: int,
    ts: int,
) -> StoreModel {
    let sid = start_session_id(m, id);
    StoreModel {
        sessions: m.sessions.push(SessionModel { id: sid, created_at: ts, name }),
        markers: m.markers.push(MarkerModel { channel, session: sid }),
        entries: m.entries,
    }
}

/// The store after ending the session of `channel`: the marker is gone,
/// sessions and entries are left untouched. Without an active session the
/// store is unchanged.
pub open spec fn end_store(m: StoreModel, channel: int) -> StoreModel {
    if has_marker(m, channel) {
        StoreModel {
            sessions: m.sessions,
            markers: m.markers.remove(marker_index(m, channel)),
            entries: m.entries,
        }
    } else {
        m
    }
}

proof fn lemma_max_session_id_ge(sessions: Seq<SessionModel>, k: int)
    requires
        0 <= k < sessions.len(),
    ensures
        sessions[k].id <= max_session_id(sessions),
    decreases sessions.len(),
{
    if k < sessions.len() - 1 {
        assert(sessions.drop_last()[k] == sessions[k]);
        lemma_max_session_id_ge(sessions.drop_last(), k);
    }
}

proof fn lemma_generated_id_fresh(m: StoreModel)
    ensures
        !session_id_taken(m, generated_session_id(m)),
{
    assert forall|i: int| 0 <= i < m.sessions.len() implies (#[trigger] m.sessions[i]).id
        != generated_session_id(m) by {
        lemma_max_session_id_ge(m.sessions, i);
    }
}

/// The mathematical values of a sequence of session records.
pub open spec fn sessions_view(v: Seq<ScriberSession>) -> Seq<SessionModel> {
    Seq::new(v.len(), |i: int| v[i]@)
}

/// Lists every session ever created, active or ended, in creation order.
pub fn get_all(db: &ScriberStore) -> (r: Vec<ScriberSession>)
    ensures
        sessions_view(r@) == db@.sessions,
{
    let mut r: Vec<ScriberSession> = Vec::new();
    let n = db.sessions.len();
    let mut i: usize = 0;
    while i < n
        invariant
            0 <= i <= n,
            n == db.sessions.len(),
            r@.len() == i,
            forall|k: int| 0 <= k < i ==> (#[trigger] r@[k])@ == db@.sessions[k],
        decreases n - i,
    {
        let s = &db.sessions[i];
        r.push(ScriberSession { id: s.id, created_at: s.created_at, name: s.name.clone() });
        i = i + 1;
    }
    proof {
        assert(sessions_view(r@) =~= db@.sessions);
    }
    r
}

/// Starts a session: creates the session record and the channel's marker
/// as one atomic unit, or refuses with `Conflict` and creates nothing.
///
/// `created_at` is the creation timestamp the new record will carry, set
/// once and never changed. When `id` is `None` an identifier is generated;
/// the identifier space must not be exhausted in that case.
#[verifier::loop_isolation(false)]
pub fn create(
    id: Option<i64>,
    name: &str,
    channel_id: i64,
    created_at: i64,
    db: &mut ScriberStore,
) -> (r: Result<i64, ScriberError>)
    requires
        wf(old(db)@),
        id is None ==> forall|i: int|
            0 <= i < old(db)@.sessions.len() ==> (#[trigger] old(db)@.sessions[i]).id < i64::MAX,
    ensures
        wf(final(db)@),
        start_conflict(old(db)@, opt_model(id), channel_id as int) ==> {
            &&& *final(db) == *old(db)
            &&& r == Err::<i64, ScriberError>(ScriberError::Conflict)
        },
        !start_conflict(old(db)@, opt_model(id), channel_id as int) ==> {
            &&& final(db)@ == start_store(
                old(db)@,
                opt_model(id),
                name@,
                channel_id as int,
                created_at as int,
            )
            &&& r matches Ok(v) && v as int == start_session_id(old(db)@, opt_model(id))
        },
{
    // Conflict check and creation are evaluated against the same store
    // value, with no interleaving: the check-and-create pair is atomic.
    let mut i: usize = 0;
    let n_states = db.channel_states.len();
    while i < n_states
        invariant
            0 <= i <= n_states,
            n_states == db.channel_states.len(),
            *db == *old(db),
            forall|k: int| 0 <= k < i ==> (#[trigger] db@.markers[k]).channel != channel_id as int,
        decreases n_states - i,
    {
        if db.channel_states[i].id == channel_id {
            proof {
                assert(db@.markers[i as int].channel == channel_id as int);
            }
            return Err(ScriberError::Conflict);
        }
        i = i + 1;
    }
    assert(!has_marker(db@, channel_id as int));

    let n_sessions = db.sessions.len();
    let sid: i64 = match id {
        Some(v) => {
            let mut j: usize = 0;
            while j < n_sessions
                invariant
                    0 <= j <= n_sessions,
                    n_sessions == db.sessions.len(),
                    *db == *old(db),
                    forall|k: int| 0 <= k < j ==> (#[trigger] db@.sessions[k]).id != v as int,
                decreases n_sessions - j,
            {
                if db.sessions[j].id == v {
                    proof {
                        assert(db@.sessions[j as int].id == v as int);
                    }
                    return Err(ScriberError::Conflict);
                }
                j = j + 1;
            }
            assert(!session_id_taken(db@, v as int));
            v
        },
        None => {
            let mut top: i64 = 0;
            let mut j: usize = 0;
            while j < n_sessions
                invariant
                    0 <= j <= n_sessions,
                    n_sessions == db.sessions.len(),
                    *db == *old(db),
                    top as int == max_session_id(db@.sessions.take(j as int)),
                    0 <= top < i64::MAX,
                    id is None,
                    forall|i: int|
                        0 <= i < db@.sessions.len() ==> (#[trigger] db@.sessions[i]).id
                            < i64::MAX,
                decreases n_sessions - j,
            {
                proof {
                    assert(db@.sessions.take(j + 1).drop_last() =~= db@.sessions.take(j as int));
                    assert(db@.sessions.take(j + 1).last() == db@.sessions[j as int]);
                }
                let cand = db.sessions[j].id;
                if cand >= top {
                    top = cand;
                }
                j = j + 1;
            }
            proof {
                assert(db@.sessions.take(n_sessions as int) =~= db@.sessions);
                lemma_generated_id_fresh(db@);
            }
            top + 1
        },
    };
    assert(sid as int == start_session_id(db@, opt_model(id)));
    assert(!session_id_taken(db@, sid as int));

    let ghost m0 = db@;
    let session = ScriberSession { id: sid, created_at, name: name.to_owned() };
    db.sessions.push(session);
    db.channel_states.push(ChannelState { id: channel_id, active_session: sid });
    proof {
        let m1 = db@;
        let target = start_store(m0, opt_model(id), name@, channel_id as int, created_at as int);
        assert(m1.sessions =~= target.sessions);
        assert(m1.markers =~= target.markers);
        assert(m1.entries =~= target.entries);
        assert(m1 =~= target);
        lemma_start_store_wf(m0, opt_model(id), name@, channel_id as int, created_at as int);
    }
    Ok(sid)
}

/// The spec-level value of an optional caller-supplied identifier.
pub open spec fn opt_model(id: Option<i64>) -> Option<int> {
    match id {
        Some(v) => Some(v as int),
        None => None,
    }
}

proof fn lemma_start_store_wf(m: StoreModel, id: Option<int>, name: Seq<char>, channel: int, ts: int)
    requires
        wf(m),
        !start_conflict(m, id, channel),
        id is None ==> forall|i: int|
            0 <= i < m.sessions.len() ==> (#[trigger] m.sessions[i]).id < i64::MAX,
    ensures
        wf(start_store(m, id, name, channel, ts)),
{
    let m1 = start_store(m, id, name, channel, ts);
    let sid = start_session_id(m, id);
    if id is None {
        lemma_generated_id_fresh(m);
    }
    assert(!session_id_taken(m, sid));
    assert forall|i: int, j: int| 0 <= i < j < m1.sessions.len() implies (
    #[trigger] m1.sessions[i]).id != (#[trigger] m1.sessions[j]).id by {
        if j == m1.sessions.len() - 1 {
            if m.sessions[i].id == sid {
                assert(session_id_taken(m, sid));
            }
        }
    }
    assert forall|i: int| 0 <= i < m1.entries.len() implies session_id_taken(
        m1,
        (#[trigger] m1.entries[i]).session,
    ) by {
        assert(session_id_taken(m, m.entries[i].session));
        let w = choose|k: int|
            0 <= k < m.sessions.len() && (#[trigger] m.sessions[k]).id == m.entries[i].session;
        assert(m1.sessions[w].id == m.entries[i].session);
    }
    assert forall|i: int| 0 <= i < m1.markers.len() implies session_id_taken(
        m1,
        (#[trigger] m1.markers[i]).session,
    ) by {
        if i < m.markers.len() {
            assert(session_id_taken(m, m.markers[i].session));
            let w = choose|k: int|
                0 <= k < m.sessions.len() && (#[trigger] m.sessions[k]).id == m.markers[i].session;
            assert(m1.sessions[w].id == m.markers[i].session);
        } else {
            assert(m1.sessions[m1.sessions.len() - 1].id == sid);
        }
    }
}

/// Ends the channel's active session, if any: deletes the marker and
/// returns the identifier of the session it pointed to. The session
/// record itself is left untouched, so history is preserved. With no
/// active session the store is not mutated and `None` comes back.
#[verifier::loop_isolation(false)]
pub fn end(channel_id: i64, db: &mut ScriberStore) -> (r: Option<i64>)
    requires
        wf(old(db)@),
    ensures
        wf(final(db)@),
        final(db)@ == end_store(old(db)@, channel_id as int),
        match active_session_of(old(db)@, channel_id as int) {
            Some(s) => r matches Some(v) && v as int == s,
            None => r is None && *final(db) == *old(db),
        },
{
    let n = db.channel_states.len();
    let mut i: usize = 0;
    while i < n
        invariant
            0 <= i <= n,
            n == db.channel_states.len(),
            *db == *old(db),
            wf(db@),
            forall|k: int| 0 <= k < i ==> (#[trigger] db@.markers[k]).channel != channel_id as int,
        decreases n - i,
    {
        if db.channel_states[i].id == channel_id {
            let sid = db.channel_states[i].active_session;
            let ghost m0 = db@;
            proof {
                assert(m0.markers[i as int].channel == channel_id as int);
                assert(has_marker(m0, channel_id as int));
                let w = marker_index(m0, channel_id as int);
                if w != i as int {
                    assert(m0.markers[w].channel == m0.markers[i as int].channel);
                    assert(false);
                }
            }
            db.channel_states.remove(i);
            proof {
                let m1 = db@;
                assert(m1.markers =~= m0.markers.remove(i as int));
                assert(m1.sessions =~= m0.sessions);
                assert(m1.entries =~= m0.entries);
                assert(m1 =~= end_store(m0, channel_id as int));
                lemma_end_store_wf(m0, channel_id as int);
            }
            return Some(sid);
        }
        i = i + 1;
    }
    assert(!has_marker(db@, channel_id as int));
    None
}

proof fn lemma_end_store_wf(m: StoreModel, channel: int)
    requires
        wf(m),
    ensures
        wf(end_store(m, channel)),
{
    if has_marker(m, channel) {
        let w = marker_index(m, channel);
        let m1 = end_store(m, channel);
        assert forall|i: int| 0 <= i < m1.markers.len() implies session_id_taken(
            m1,
            (#[trigger] m1.markers[i]).session,
        ) by {
            let j = if i < w {
                i
            } else {
                i + 1
            };
            assert(m1.markers[i] == m.markers[j]);
            assert(session_id_taken(m, m.markers[j].session));
            let k = choose|k: int|
                0 <= k < m.sessions.len() && (#[trigger] m.sessions[k]).id == m.markers[j].session;
            assert(m1.sessions[k].id == m.markers[j].session);
        }
        assert forall|i: int| 0 <= i < m1.entries.len() implies session_id_taken(
            m1,
            (#[trigger] m1.entries[i]).session,
        ) by {
            let k = choose|k: int|
                0 <= k < m.sessions.len() && (#[trigger] m.sessions[k]).id == m.entries[i].session;
            assert(m1.sessions[k].id == m.entries[i].session);
        }
        assert forall|i: int, j: int| 0 <= i < j < m1.markers.len() implies (
        #[trigger] m1.markers[i]).channel != (#[trigger] m1.markers[j]).channel by {
            let i0 = if i < w {
                i
            } else {
                i + 1
            };
            let j0 = if j < w {
                j
            } else {
                j + 1
            };
            assert(m1.markers[i] == m.markers[i0]);
            assert(m1.markers[j] == m.markers[j0]);
        }
    }
}

/// Pure lookup of the channel's active session, used both by the command
/// surface and by the note-ingestion path.
pub fn get_channel_active_session(channel_id: i64, db: &ScriberStore) -> (r: Option<i64>)
    requires
        wf(db@),
    ensures
        match active_session_of(db@, channel_id as int) {
            Some(s) => r matches Some(v) && v as int == s,
            None => r is None,
        },
        r matches Some(v) ==> session_id_taken(db@, v as int),
{
    let n = db.channel_states.len();
    let mut i: usize = 0;
    while i < n
        invariant
            0 <= i <= n,
            n == db.channel_states.len(),
            wf(db@),
            forall|k: int| 0 <= k < i ==> (#[trigger] db@.markers[k]).channel != channel_id as int,
        decreases n - i,
    {
        if db.channel_states[i].id == channel_id {
            proof {
                assert(db@.markers[i as int].channel == channel_id as int);
                assert(has_marker(db@, channel_id as int));
                let w = marker_index(db@, channel_id as int);
                if w != i as int {
                    assert(db@.markers[w].channel == db@.markers[i as int].channel);
                    assert(false);
                }
            }
            return Some(db.channel_states[i].active_session);
        }
        i = i + 1;
    }
    assert(!has_marker(db@, channel_id as int));
    None
}

/// After a start succeeds for a channel, any further start request for the
/// same channel conflicts — whatever identifier, name or timestamp it
/// carries — and the record the first start created is present unchanged.
/// Together with `create`'s contract (a conflicting start mutates nothing
/// and creates no record) this is the channel-exclusivity law.
pub proof fn lemma_start_session_exclusive(
    m: StoreModel,
    id1: Option<int>,
    n1: Seq<char>,
    c: int,
    t1: int,
    id2: Option<int>,
    n2: Seq<char>,
    t2: int,
)
    requires
        wf(m),
        !start_conflict(m, id1, c),
    ensures
        ({
            let m1 = start_store(m, id1, n1, c, t1);
            &&& start_conflict(m1, id2, c)
            &&& m1.sessions.last() == (SessionModel {
                id: start_session_id(m, id1),
                created_at: t1,
                name: n1,
            })
        }),
{
    let m1 = start_store(m, id1, n1, c, t1);
    assert(m1.markers.last().channel == c);
    assert(has_marker(m1, c));
}

/// Session records are historical facts: once created they are never
/// mutated or deleted. Ending a session and recording a note leave the
/// session list untouched, and a successful start only appends to it.
pub proof fn lemma_session_history_preserved(
    m: StoreModel,
    c: int,
    id: Option<int>,
    name: Seq<char>,
    ts: int,
    content: Seq<char>,
    message_id: int,
    author: int,
    session: int,
)
    ensures
        end_store(m, c).sessions == m.sessions,
        crate::notes::append_store(m, content, message_id, author, session).sessions
            == m.sessions,
        start_store(m, id, name, c, ts).sessions.take(m.sessions.len() as int) == m.sessions,
{
    assert(start_store(m, id, name, c, ts).sessions.take(m.sessions.len() as int)
        =~= m.sessions);
}

/// Ending a session on a channel with no active session changes nothing
/// in the store and reports the absence, not an error.
pub proof fn lemma_end_without_active(m: StoreModel, c: int)
    requires
        !has_marker(m, c),
    ensures
        end_store(m, c) == m,
        active_session_of(m, c) is None,
{
}

} // verus!
