//! The command surface of the core: the handler bodies behind the
//! start-session, list-sessions, end-session and transcript requests,
//! with the exact response texts and the size-driven delivery decision.

use vstd::prelude::*;

use crate::ids::{dec_int, i64_dec, parse_session_id, session_id_value, valid_session_id_text};
use crate::notes::{notes_for, get_for_session};
use crate::session::{
    end_store, get_all, sessions_view, start_conflict, start_store, ScriberSession, SessionModel,
};
use crate::store::{active_session_of, wf, ScriberStore};
use crate::utils::{build_session_notes_output, transcript_of};
use crate::ScriberError;

verus! {

/// A transcript longer than this many characters is delivered as a file
/// attachment instead of an inline message.
pub const OUTPUT_LIMIT: usize = 500;

/// What chrono renders for a session start time under the
/// `%d/%m/%Y %H:%M UTC%:::z` layout: a function of the timestamp alone.
pub uninterp spec fn date_display_of(ts: int) -> Seq<char>;

/// Relies on chrono::DateTime::<Utc>::from_timestamp (with zero
/// nanoseconds) and its formatting with `%d/%m/%Y %H:%M UTC%:::z`: the
/// rendering depends on the timestamp alone, and chrono returns `None`
/// only for out-of-range seconds, so every timestamp from the Unix epoch
/// up to the year 2100 is rendered.
#[verifier::external_body]
fn format_session_start(ts: i64) -> (r: Option<String>)
    ensures
        r matches Some(s) ==> s@ == date_display_of(ts as int),
        0 <= ts <= 4102444800 ==> r is Some,
{
    match chrono::DateTime::<chrono::Utc>::from_timestamp(ts, 0) {
        Some(dt) => Some(dt.format("%d/%m/%Y %H:%M UTC%:::z").to_string()),
        None => None,
    }
}

/// The description shown beside a session in the selection step: its
/// start time, as rendered by the date formatter.
pub fn session_menu_description(session: &ScriberSession) -> (r: Option<String>)
    ensures
        r matches Some(s) ==> s@ == "Started "@ + date_display_of(session@.created_at),
        0 <= session@.created_at <= 4102444800 ==> r is Some,
{
    match format_session_start(session.created_at) {
        Some(rendered) => {
            let mut s = String::new();
            s.append("Started ");
            s.append(rendered.as_str());
            Some(s)
        },
        None => None,
    }
}

/// One line of the session overview: the session's name and its creation
/// timestamp.
pub open spec fn session_line(s: SessionModel) -> Seq<char> {
    "* "@ + s.name + " (<t:"@ + dec_int(s.created_at) + ">)\n"@
}

/// The overview lines, one per session, in listing order.
pub open spec fn session_lines(sessions: Seq<SessionModel>) -> Seq<char>
    decreases sessions.len(),
{
    if sessions.len() == 0 {
        Seq::empty()
    } else {
        session_lines(sessions.drop_last()) + session_line(sessions.last())
    }
}

/// The response to a listing request: an invitation to start when no
/// session exists yet, else a heading followed by one line per session.
pub open spec fn sessions_overview(sessions: Seq<SessionModel>) -> Seq<char> {
    if sessions.len() == 0 {
        "No sessions here yet. Get started by calling /start_session."@
    } else {
        "Here's all your sessions:\n\n"@ + session_lines(sessions)
    }
}

/// Starts a session in the invoking channel, under the identifier of the
/// triggering invocation, and phrases the outcome: either the session and
/// its marker are created together, or a conflict is reported and nothing
/// is created.
pub fn start_session(
    db: &mut ScriberStore,
    invocation_id: i64,
    name: &str,
    channel_id: i64,
    created_at: i64,
) -> (r: String)
    requires
        wf(old(db)@),
    ensures
        wf(final(db)@),
        start_conflict(old(db)@, Some(invocation_id as int), channel_id as int) ==> ({
            &&& *final(db) == *old(db)
            &&& r@ == "There can be only one active session in a channel at a time!"@
        }),
        !start_conflict(old(db)@, Some(invocation_id as int), channel_id as int) ==> ({
            &&& final(db)@ == start_store(
                old(db)@,
                Some(invocation_id as int),
                name@,
                channel_id as int,
                created_at as int,
            )
            &&& r@ == "Session started!"@
        }),
{
    match crate::session::create(Some(invocation_id), name, channel_id, created_at, db) {
        Ok(_) => String::from_str("Session started!"),
        Err(_) => String::from_str("There can be only one active session in a channel at a time!"),
    }
}

/// Lists all sessions with name and creation time, or reports that none
/// exist yet.
#[verifier::loop_isolation(false)]
pub fn get_sessions(db: &ScriberStore) -> (r: String)
    ensures
        r@ == sessions_overview(db@.sessions),
{
    let sessions = get_all(db);
    if sessions.len() == 0 {
        proof {
            assert(db@.sessions.len() == 0);
        }
        String::from_str("No sessions here yet. Get started by calling /start_session.")
    } else {
        let mut out = String::new();
        out.append("Here's all your sessions:\n\n");
        let n = sessions.len();
        let mut i: usize = 0;
        proof {
            assert(db@.sessions.take(0) =~= Seq::<SessionModel>::empty());
        }
        while i < n
            invariant
                0 <= i <= n,
                n == sessions@.len(),
                out@ == "Here's all your sessions:\n\n"@ + session_lines(db@.sessions.take(i as int)),
            decreases n - i,
        {
            proof {
                assert(db@.sessions.take(i + 1).drop_last() =~= db@.sessions.take(i as int));
                assert(db@.sessions.take(i + 1).last() == db@.sessions[i as int]);
                assert(sessions@[i as int]@ == db@.sessions[i as int]);
            }
            let ghost out0 = out@;
            let s = &sessions[i];
            out.append("* ");
            out.append(s.name.as_str());
            out.append(" (<t:");
            let ts = i64_dec(s.created_at);
            out.append(ts.as_str());
            out.append(">)\n");
            proof {
                assert(out@ =~= out0 + session_line(db@.sessions[i as int]));
                assert(out@ =~= "Here's all your sessions:\n\n"@ + session_lines(
                    db@.sessions.take(i + 1),
                ));
            }
            i = i + 1;
        }
        proof {
            assert(db@.sessions.take(n as int) =~= db@.sessions);
        }
        out
    }
}

/// Ends the invoking channel's active session, or reports that none is
/// active. The session record itself is never touched.
pub fn end_session(db: &mut ScriberStore, channel_id: i64) -> (r: String)
    requires
        wf(old(db)@),
    ensures
        wf(final(db)@),
        final(db)@ == end_store(old(db)@, channel_id as int),
        active_session_of(old(db)@, channel_id as int) is Some ==> r@ == "Session ended!"@,
        active_session_of(old(db)@, channel_id as int) is None ==> ({
            &&& *final(db) == *old(db)
            &&& r@ == "No active session in this channel!"@
        }),
{
    match crate::session::end(channel_id, db) {
        Some(_) => String::from_str("Session ended!"),
        None => String::from_str("No active session in this channel!"),
    }
}

/// The display name used in a transcript response: the name of the first
/// session carrying `sid`, or the no-selection text if none does.
pub open spec fn display_name(sessions: Seq<SessionModel>, sid: int) -> Seq<char>
    decreases sessions.len(),
{
    if sessions.len() == 0 {
        "No session selected"@
    } else if sessions[0].id == sid {
        sessions[0].name
    } else {
        display_name(sessions.drop_first(), sid)
    }
}

/// Finds the display name for `session_id` among `sessions`.
#[verifier::loop_isolation(false)]
pub fn session_name_for(sessions: &Vec<ScriberSession>, session_id: i64) -> (r: String)
    ensures
        r@ == display_name(sessions_view(sessions@), session_id as int),
{
    let ghost sv = sessions_view(sessions@);
    let n = sessions.len();
    let mut i: usize = 0;
    proof {
        assert(sv.skip(0) =~= sv);
    }
    while i < n
        invariant
            0 <= i <= n,
            n == sessions@.len(),
            display_name(sv.skip(i as int), session_id as int) == display_name(
                sv,
                session_id as int,
            ),
        decreases n - i,
    {
        proof {
            assert(sv.skip(i as int)[0] == sv[i as int]);
            assert(sv.skip(i as int).drop_first() =~= sv.skip(i + 1));
        }
        if sessions[i].id == session_id {
            return sessions[i].name.clone();
        }
        i = i + 1;
    }
    proof {
        assert(sv.skip(n as int) =~= Seq::<SessionModel>::empty());
    }
    String::from_str("No session selected")
}

/// How a transcript response leaves the core.
pub enum NoteDelivery {
    /// The session has no recorded content: a plain report, no attachment.
    NoContent(String),
    /// The transcript fits the inline budget and travels as message text.
    Inline(String),
    /// The transcript exceeds the inline budget and travels as a named
    /// file attachment whose contents are exactly the transcript text
    /// that would otherwise have been sent inline.
    Attachment { file_name: String, contents: String },
}

/// The heading of a transcript response: the session name in bold.
pub open spec fn note_heading(name: Seq<char>) -> Seq<char> {
    "**"@ + name + "**\n\n"@
}

/// The response when the session has no content.
pub open spec fn no_content_message(name: Seq<char>) -> Seq<char> {
    note_heading(name) + "Session has no content"@
}

/// The response when the transcript is delivered inline.
pub open spec fn inline_message(name: Seq<char>, output: Seq<char>) -> Seq<char> {
    note_heading(name) + output
}

/// The name of the attachment carrying an oversized transcript.
pub open spec fn attachment_file_name(name: Seq<char>) -> Seq<char> {
    name + " notes.txt"@
}

/// Decides how a built transcript is delivered: an empty transcript is
/// reported as content-less; one within the inline budget travels in the
/// message; a larger one becomes a file attachment named after the
/// session, carrying exactly the text an inline delivery would have sent.
pub fn plan_delivery(session_name: &str, output: String) -> (d: NoteDelivery)
    ensures
        output@.len() == 0 ==> (d matches NoteDelivery::NoContent(m) && m@ == no_content_message(
            session_name@,
        )),
        0 < output@.len() <= 500 ==> (d matches NoteDelivery::Inline(m) && m@ == inline_message(
            session_name@,
            output@,
        )),
        output@.len() > 500 ==> (d matches NoteDelivery::Attachment { file_name, contents }
            && file_name@ == attachment_file_name(session_name@) && contents@ == output@),
{
    let len = output.as_str().unicode_len();
    if len == 0 {
        let mut m = String::new();
        m.append("**");
        m.append(session_name);
        m.append("**\n\n");
        m.append("Session has no content");
        proof {
            assert(m@ =~= no_content_message(session_name@));
        }
        NoteDelivery::NoContent(m)
    } else if len <= OUTPUT_LIMIT {
        let mut m = String::new();
        m.append("**");
        m.append(session_name);
        m.append("**\n\n");
        m.append(output.as_str());
        proof {
            assert(m@ =~= inline_message(session_name@, output@));
        }
        NoteDelivery::Inline(m)
    } else {
        let mut file_name = String::new();
        file_name.append(session_name);
        file_name.append(" notes.txt");
        proof {
            assert(file_name@ =~= attachment_file_name(session_name@));
        }
        NoteDelivery::Attachment { file_name, contents: output }
    }
}

/// The transcript response for a selected session: the selection value is
/// parsed (a malformed one fails fast, mutating nothing), the session's
/// notes are fetched in chronological order and built into the transcript,
/// and the transcript's size decides the delivery.
pub fn get_note(db: &ScriberStore, selected: &str) -> (r: Result<NoteDelivery, ScriberError>)
    requires
        wf(db@),
    ensures
        !valid_session_id_text(selected@) ==> r == Err::<NoteDelivery, ScriberError>(
            ScriberError::MalformedIdentifier,
        ),
        valid_session_id_text(selected@) ==> ({
            let sid = session_id_value(selected@);
            let name = display_name(db@.sessions, sid);
            let output = transcript_of(notes_for(db@.entries, sid));
            &&& r is Ok
            &&& (output.len() == 0 ==> (r->Ok_0 matches NoteDelivery::NoContent(m) && m@
                == no_content_message(name)))
            &&& (0 < output.len() <= 500 ==> (r->Ok_0 matches NoteDelivery::Inline(m) && m@
                == inline_message(name, output)))
            &&& (output.len() > 500 ==> (r->Ok_0 matches NoteDelivery::Attachment {
                file_name,
                contents,
            } && file_name@ == attachment_file_name(name) && contents@ == output))
        }),
{
    let session_id = match parse_session_id(selected) {
        Ok(v) => v,
        Err(e) => {
            return Err(e);
        },
    };
    let sessions = get_all(db);
    let name = session_name_for(&sessions, session_id);
    let all_notes = get_for_session(session_id, db);
    let output = build_session_notes_output(&all_notes);
    Ok(plan_delivery(name.as_str(), output))
}

} // verus!
