use scriber::commands::{end_session, get_note, get_sessions, start_session, NoteDelivery};
use scriber::handlers::handle_new_message;
use scriber::notes::{create_entry, get_for_session};
use scriber::session::{create, end, get_all, get_channel_active_session};
use scriber::store::ScriberStore;
use scriber::ScriberError;

#[test]
fn start_session_is_exclusive_per_channel() {
    let mut db = ScriberStore::new();
    let first = start_session(&mut db, 1, "daily", 77, 1000);
    assert_eq!(first, "Session started!");
    let second = start_session(&mut db, 2, "evening", 77, 2000);
    assert_eq!(second, "There can be only one active session in a channel at a time!");
    // The losing request created nothing and altered nothing.
    let sessions = get_all(&db);
    assert_eq!(sessions.len(), 1);
    assert_eq!(sessions[0].id, 1);
    assert_eq!(sessions[0].created_at, 1000);
    assert_eq!(sessions[0].name, "daily");
    assert_eq!(get_channel_active_session(77, &db), Some(1));
}

#[test]
fn same_invocation_id_conflicts_even_on_another_channel() {
    let mut db = ScriberStore::new();
    assert_eq!(create(Some(5), "one", 1, 10, &mut db), Ok(5));
    assert_eq!(create(Some(5), "two", 2, 20, &mut db), Err(ScriberError::Conflict));
    assert_eq!(get_all(&db).len(), 1);
}

#[test]
fn generated_identifiers_increase_monotonically() {
    let mut db = ScriberStore::new();
    assert_eq!(create(None, "one", 1, 10, &mut db), Ok(1));
    assert_eq!(end(1, &mut db), Some(1));
    assert_eq!(create(None, "two", 1, 20, &mut db), Ok(2));
}

#[test]
fn end_without_active_session_changes_nothing() {
    let mut db = ScriberStore::new();
    let started = start_session(&mut db, 9, "standup", 5, 100);
    assert_eq!(started, "Session started!");
    let before = get_sessions(&db);
    let response = end_session(&mut db, 6);
    assert_eq!(response, "No active session in this channel!");
    assert_eq!(get_sessions(&db), before);
    assert_eq!(get_channel_active_session(5, &db), Some(9));
}

#[test]
fn end_returns_the_session_that_was_active() {
    let mut db = ScriberStore::new();
    assert_eq!(create(Some(3), "s", 8, 0, &mut db), Ok(3));
    assert_eq!(end(8, &mut db), Some(3));
    assert_eq!(get_channel_active_session(8, &db), None);
    // The session record itself survives the end.
    assert_eq!(get_all(&db).len(), 1);
    assert_eq!(end_session(&mut db, 8), "No active session in this channel!");
}

#[test]
fn note_while_active_is_retrievable_and_none_after_end() {
    let mut db = ScriberStore::new();
    assert_eq!(create(Some(4), "s", 12, 0, &mut db), Ok(4));
    handle_new_message(&mut db, 12, 900, 5000, &String::from("first note"), false);
    let notes = get_for_session(4, &db);
    assert_eq!(notes.len(), 1);
    assert_eq!(notes[0].id, 5000);
    assert_eq!(notes[0].author, 900);
    assert_eq!(notes[0].content, "first note");
    assert_eq!(notes[0].session, 4);
    assert_eq!(end_session(&mut db, 12), "Session ended!");
    handle_new_message(&mut db, 12, 900, 5001, &String::from("too late"), false);
    let notes_after = get_for_session(4, &db);
    assert_eq!(notes_after.len(), 1);
    assert_eq!(notes_after[0].id, 5000);
}

#[test]
fn automated_messages_are_ignored() {
    let mut db = ScriberStore::new();
    assert_eq!(create(Some(1), "s", 3, 0, &mut db), Ok(1));
    handle_new_message(&mut db, 3, 77, 600, &String::from("beep"), true);
    assert_eq!(get_for_session(1, &db).len(), 0);
}

#[test]
fn reingesting_the_same_message_yields_one_entry() {
    let mut db = ScriberStore::new();
    assert_eq!(create(Some(2), "s", 4, 0, &mut db), Ok(2));
    handle_new_message(&mut db, 4, 10, 777, &String::from("once"), false);
    handle_new_message(&mut db, 4, 10, 777, &String::from("once"), false);
    assert_eq!(get_for_session(2, &db).len(), 1);
    // Through the recorder directly as well: still treated as success.
    assert_eq!(create_entry(&String::from("once"), 777, 10, 2, &mut db), 777);
    assert_eq!(get_for_session(2, &db).len(), 1);
}

#[test]
fn notes_come_back_in_ingestion_order() {
    let mut db = ScriberStore::new();
    assert_eq!(create(Some(1), "s", 2, 0, &mut db), Ok(1));
    handle_new_message(&mut db, 2, 5, 100, &String::from("a"), false);
    handle_new_message(&mut db, 2, 6, 101, &String::from("b"), false);
    handle_new_message(&mut db, 2, 5, 102, &String::from("c"), false);
    let notes = get_for_session(1, &db);
    let ids: Vec<u64> = notes.iter().map(|e| e.id).collect();
    assert_eq!(ids, vec![100, 101, 102]);
}

#[test]
fn listing_with_no_sessions_invites_a_start() {
    let db = ScriberStore::new();
    assert_eq!(
        get_sessions(&db),
        "No sessions here yet. Get started by calling /start_session."
    );
}

#[test]
fn listing_renders_name_and_timestamp() {
    let mut db = ScriberStore::new();
    assert_eq!(create(Some(1), "daily", 7, 1431648000, &mut db), Ok(1));
    assert_eq!(end(7, &mut db), Some(1));
    assert_eq!(create(Some(2), "retro", 7, -5, &mut db), Ok(2));
    assert_eq!(
        get_sessions(&db),
        "Here's all your sessions:\n\n* daily (<t:1431648000>)\n* retro (<t:-5>)\n"
    );
}

#[test]
fn get_note_rejects_a_malformed_selection() {
    let db = ScriberStore::new();
    assert!(matches!(get_note(&db, "session:abc"), Err(ScriberError::MalformedIdentifier)));
    assert!(matches!(get_note(&db, ""), Err(ScriberError::MalformedIdentifier)));
}

#[test]
fn get_note_for_unknown_session_reports_no_selection() {
    let db = ScriberStore::new();
    match get_note(&db, "41") {
        Ok(NoteDelivery::NoContent(m)) => {
            assert_eq!(m, "**No session selected**\n\nSession has no content")
        },
        _ => panic!("expected the no-content delivery"),
    }
}

#[test]
fn get_note_builds_the_selected_transcript_inline() {
    let mut db = ScriberStore::new();
    assert_eq!(create(Some(6), "standup", 9, 0, &mut db), Ok(6));
    handle_new_message(&mut db, 9, 1, 300, &String::from("hello"), false);
    handle_new_message(&mut db, 9, 2, 301, &String::from("world"), false);
    match get_note(&db, "6") {
        Ok(NoteDelivery::Inline(m)) => {
            assert_eq!(m, "**standup**\n\n:<@1>\nhello\n\n:<@2>\nworld")
        },
        _ => panic!("expected the inline delivery"),
    }
}

#[test]
fn get_note_delivers_an_oversized_transcript_as_attachment() {
    let mut db = ScriberStore::new();
    assert_eq!(create(Some(1), "long", 2, 0, &mut db), Ok(1));
    let body = "y".repeat(600);
    handle_new_message(&mut db, 2, 8, 40, &String::from(body.as_str()), false);
    match get_note(&db, "1") {
        Ok(NoteDelivery::Attachment { file_name, contents }) => {
            assert_eq!(file_name, "long notes.txt");
            assert_eq!(contents, format!(":<@8>\n{}", body));
        },
        _ => panic!("expected the attachment delivery"),
    }
}
