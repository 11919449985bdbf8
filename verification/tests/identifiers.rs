use scriber::commands::session_menu_description;
use scriber::ids::{i64_dec, parse_session_id, u64_dec};
use scriber::session::ScriberSession;
use scriber::ScriberError;

#[test]
fn parses_plain_decimal_identifiers() {
    assert_eq!(parse_session_id("0"), Ok(0));
    assert_eq!(parse_session_id("123"), Ok(123));
    assert_eq!(parse_session_id("007"), Ok(7));
    assert_eq!(parse_session_id("9223372036854775807"), Ok(i64::MAX));
}

#[test]
fn parses_negative_identifiers() {
    assert_eq!(parse_session_id("-45"), Ok(-45));
    assert_eq!(parse_session_id("-0"), Ok(0));
    assert_eq!(parse_session_id("-9223372036854775808"), Ok(i64::MIN));
}

#[test]
fn rejects_malformed_identifiers() {
    let malformed = ["", "-", "+5", "12a", "a12", "1 2", "--3", "session:01H", "9223372036854775808", "-9223372036854775809", "99999999999999999999999"];
    for text in malformed {
        assert_eq!(parse_session_id(text), Err(ScriberError::MalformedIdentifier));
    }
}

#[test]
fn renders_decimals_exactly() {
    assert_eq!(u64_dec(0), "0");
    assert_eq!(u64_dec(9), "9");
    assert_eq!(u64_dec(10), "10");
    assert_eq!(u64_dec(18446744073709551615), "18446744073709551615");
    assert_eq!(i64_dec(0), "0");
    assert_eq!(i64_dec(-1), "-1");
    assert_eq!(i64_dec(i64::MIN), "-9223372036854775808");
    assert_eq!(i64_dec(i64::MAX), "9223372036854775807");
}

#[test]
fn parse_round_trips_rendered_identifiers() {
    for v in [0i64, 1, -1, 42, -42, i64::MIN, i64::MAX] {
        assert_eq!(parse_session_id(i64_dec(v).as_str()), Ok(v));
    }
}

#[test]
fn menu_description_renders_the_start_date() {
    let session = ScriberSession { id: 1, created_at: 1431648000, name: String::from("daily") };
    let description = session_menu_description(&session).expect("timestamp is in range");
    assert_eq!(description, "Started 15/05/2015 00:00 UTC+00");
}

#[test]
fn menu_description_depends_on_the_timestamp() {
    let s1 = ScriberSession { id: 1, created_at: 0, name: String::from("a") };
    let s2 = ScriberSession { id: 2, created_at: 86400, name: String::from("b") };
    let d1 = session_menu_description(&s1).expect("in range");
    let d2 = session_menu_description(&s2).expect("in range");
    assert_eq!(d1, "Started 01/01/1970 00:00 UTC+00");
    assert_ne!(d1, d2);
}
