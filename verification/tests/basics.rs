//! Time and text, which everything else is written in.

use sasse::text;
use sasse::time::{Span, Timestamp};

#[test]
fn a_timestamp_is_on_the_calendar() {
    let at = Timestamp::new(1_700_000_000, 5).unwrap();
    assert_eq!((at.secs(), at.nanos()), (1_700_000_000, 5));
    assert!(Timestamp::new(i64::MAX, 0).is_none());
    assert!(Timestamp::new(0, 2_000_000_000).is_none());
}

#[test]
fn timestamps_are_read_and_written_in_rfc3339() {
    let at = Timestamp::new(1_700_000_000, 123_456_789).unwrap();
    assert_eq!(at.to_rfc3339(), "2023-11-14T22:13:20.123456Z");
    let back = Timestamp::from_rfc3339("2023-11-14T23:13:20.5+01:00").unwrap();
    assert_eq!((back.secs(), back.nanos()), (1_700_000_000, 500_000_000));
    assert!(Timestamp::from_rfc3339("not a time").is_none());
}

#[test]
fn time_passes_forwards() {
    let at = Timestamp::new(1_700_000_000, 900_000_000).unwrap();
    let later = at
        .plus(Span {
            secs: 60,
            nanos: 200_000_000,
        })
        .unwrap();
    assert_eq!((later.secs(), later.nanos()), (1_700_000_061, 100_000_000));
    assert!(at.is_before(&later) && !later.is_before(&at));
    assert_eq!(at.seconds_until(&later), 60);
    assert_eq!(later.seconds_until(&at), 0);
    assert!(at.plus(Span::from_secs(u64::MAX)).is_none());
    assert_eq!(at.unix_nanos(), Some(1_700_000_000_900_000_000));
    assert!(Span::from_secs(0).is_zero() && !Span::from_secs(1).is_zero());
}

#[test]
fn texts_are_trimmed_joined_and_padded() {
    assert_eq!(text::trim("  a b\u{a0}\n"), "a b");
    assert_eq!(
        text::join(&["a".to_string(), "b".to_string()], ", "),
        "a, b"
    );
    assert_eq!(text::pad("ab", 4), "ab  ");
    assert_eq!(text::pad("abcdef", 4), "abcdef");
    assert_eq!(text::integer_text(-12), "-12");
    assert_eq!(text::integer_text(i64::MIN), "-9223372036854775808");
    assert_eq!(text::decimal_text(u64::MAX), "18446744073709551615");
    assert_eq!(text::lines("a\r\nb\n\nc"), vec!["a", "b", "", "c"]);
    assert!(text::contains("abcabd", "abd") && !text::contains("abc", "abd"));
}

/// A text that cannot be read is shown as it would be written in a program, so
/// that what is wrong with it can be seen.
#[test]
fn a_text_in_an_error_is_quoted() {
    let why = sasse::db::parse_stamp("a\"b\n").unwrap_err().message();
    assert!(why.contains("\"a\\\"b\\n\""), "got {why}");
}
