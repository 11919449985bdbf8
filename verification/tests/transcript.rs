use scriber::commands::{plan_delivery, NoteDelivery};
use scriber::notes::SessionEntry;
use scriber::utils::build_session_notes_output;

fn entry(id: u64, author: u64, content: &str) -> SessionEntry {
    SessionEntry { id, content: String::from(content), author, session: 1 }
}

#[test]
fn builds_author_grouped_transcript() {
    let entries = vec![
        entry(10, 1, "hi"),
        entry(11, 1, "there"),
        entry(12, 2, "yo"),
        entry(13, 1, "back"),
    ];
    let out = build_session_notes_output(&entries);
    assert_eq!(out, ":<@1>\nhi\nthere\n\n:<@2>\nyo\n\n:<@1>\nback");
}

#[test]
fn builds_empty_transcript_from_no_entries() {
    let entries: Vec<SessionEntry> = Vec::new();
    let out = build_session_notes_output(&entries);
    assert_eq!(out, "");
}

#[test]
fn single_entry_transcript() {
    let entries = vec![entry(7, 42, "only line")];
    let out = build_session_notes_output(&entries);
    assert_eq!(out, ":<@42>\nonly line");
}

#[test]
fn transcript_trims_trailing_whitespace_of_last_content() {
    let entries = vec![entry(1, 5, "padded   ")];
    let out = build_session_notes_output(&entries);
    assert_eq!(out, ":<@5>\npadded");
}

#[test]
fn empty_output_is_reported_as_no_content() {
    let d = plan_delivery("daily", String::new());
    match d {
        NoteDelivery::NoContent(m) => assert_eq!(m, "**daily**\n\nSession has no content"),
        _ => panic!("expected the no-content delivery"),
    }
}

#[test]
fn small_output_is_delivered_inline() {
    let d = plan_delivery("daily", String::from("short transcript"));
    match d {
        NoteDelivery::Inline(m) => assert_eq!(m, "**daily**\n\nshort transcript"),
        _ => panic!("expected the inline delivery"),
    }
}

#[test]
fn output_at_the_limit_is_still_inline() {
    let text: String = "x".repeat(500);
    let d = plan_delivery("daily", text.clone());
    match d {
        NoteDelivery::Inline(m) => assert_eq!(m, format!("**daily**\n\n{}", text)),
        _ => panic!("expected the inline delivery"),
    }
}

#[test]
fn oversized_output_becomes_a_named_attachment_with_exact_contents() {
    let text: String = "x".repeat(501);
    let d = plan_delivery("retro", text.clone());
    match d {
        NoteDelivery::Attachment { file_name, contents } => {
            assert_eq!(file_name, "retro notes.txt");
            assert_eq!(contents, text);
        },
        _ => panic!("expected the attachment delivery"),
    }
}

#[test]
fn first_entry_always_gets_a_header_even_for_author_zero() {
    let entries = vec![entry(1, 0, "from the zero author")];
    let out = build_session_notes_output(&entries);
    assert_eq!(out, ":<@0>\nfrom the zero author");
}
