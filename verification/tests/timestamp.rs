use icecutter::text::IntErrorKind;
use icecutter::timestamp::{Timestamp, TimestampError};

fn parts(t: &Timestamp) -> (Option<u8>, Option<u8>, Option<u8>) {
    (t.hours(), t.minutes(), t.seconds())
}

fn err(s: &str) -> TimestampError {
    match Timestamp::new(s) {
        Ok(t) => panic!("{:?} read as {:?}", s, t),
        Err(e) => e,
    }
}

#[test]
fn minutes_and_seconds() {
    let t = Timestamp::new("1:05").unwrap();
    assert_eq!(parts(&t), (None, Some(1), Some(5)));
    assert_eq!(t.total_secs(), 65);
    assert_eq!(t.to_string(), "01:05");
    assert!(!t.is_empty());
}

#[test]
fn hours_minutes_seconds_trimmed() {
    let t = Timestamp::new("  01:02:03 \n").unwrap();
    assert_eq!(parts(&t), (Some(1), Some(2), Some(3)));
    assert_eq!(t.total_secs(), 3723);
    assert_eq!(t.to_string(), "1:02:03");
}

#[test]
fn seconds_only() {
    let t = Timestamp::new("7").unwrap();
    assert_eq!(parts(&t), (None, None, Some(7)));
    assert_eq!(t.to_string(), "07");
    assert_eq!(t.total_secs(), 7);
}

#[test]
fn empty_and_blank_text() {
    for s in ["", "   ", "\t\n", "\u{3000}"] {
        let t = Timestamp::new(s).unwrap();
        assert!(t.is_empty());
        assert_eq!(parts(&t), (None, None, None));
        assert_eq!(t.total_secs(), 0);
        assert_eq!(t.to_string(), "");
    }
    assert!(Timestamp::default().is_empty());
}

#[test]
fn empty_fields_are_zero() {
    let t = Timestamp::new("::").unwrap();
    assert_eq!(parts(&t), (Some(0), Some(0), Some(0)));
    assert_eq!(t.to_string(), "00:00");
    let t = Timestamp::new("5:").unwrap();
    assert_eq!(parts(&t), (None, Some(5), Some(0)));
}

#[test]
fn zero_hours_are_not_written() {
    let t = Timestamp::new("0:00:07").unwrap();
    assert_eq!(parts(&t), (Some(0), Some(0), Some(7)));
    assert_eq!(t.to_string(), "00:07");
    assert_eq!(t.total_secs(), 7);
}

#[test]
fn seconds_are_rounded_half_away_from_zero() {
    assert_eq!(Timestamp::new("1:2.5").unwrap().seconds(), Some(3));
    assert_eq!(Timestamp::new("59.4").unwrap().seconds(), Some(59));
    assert_eq!(Timestamp::new("0.49").unwrap().seconds(), Some(0));
    assert_eq!(Timestamp::new(".5").unwrap().seconds(), Some(1));
    assert_eq!(Timestamp::new("5.").unwrap().seconds(), Some(5));
    assert_eq!(Timestamp::new("+5").unwrap().seconds(), Some(5));
    assert_eq!(Timestamp::new("-0.4").unwrap().seconds(), Some(0));
    assert_eq!(err("59.5"), TimestampError::SecondsOutOfRange);
}

#[test]
fn seconds_are_read_as_f32() {
    // 0.49999999 is nearest to the f32 0.5, which rounds up
    assert_eq!(Timestamp::new("0.49999999").unwrap().seconds(), Some(1));
    assert_eq!(Timestamp::new("0.4999999").unwrap().seconds(), Some(0));
    assert_eq!(Timestamp::new("59.49999").unwrap().seconds(), Some(59));
    assert_eq!(err("59.4999999"), TimestampError::SecondsOutOfRange);
    assert_eq!(Timestamp::new("1.4999999").unwrap().seconds(), Some(1));
    assert_eq!(Timestamp::new("1.49999999").unwrap().seconds(), Some(2));
    assert_eq!(Timestamp::new("1e1").unwrap().seconds(), Some(10));
    assert_eq!(Timestamp::new("1E1").unwrap().seconds(), Some(10));
    assert_eq!(Timestamp::new(".5e1").unwrap().seconds(), Some(5));
    assert_eq!(Timestamp::new("2:450e-1").unwrap().seconds(), Some(45));
    assert_eq!(Timestamp::new("5e-99999999999999999999999999").unwrap().seconds(), Some(0));
    assert_eq!(Timestamp::new("0e99999999999999999999999999").unwrap().seconds(), Some(0));
    assert_eq!(Timestamp::new("000000000000000000000000000000042").unwrap().seconds(), Some(42));
    assert_eq!(Timestamp::new("0.0000000000000000000000000000001e31").unwrap().seconds(), Some(1));
    assert_eq!(err("1e99999999999999999999999999"), TimestampError::SecondsOutOfRange);
    assert_eq!(err("1e2"), TimestampError::SecondsOutOfRange);
    assert_eq!(err("1e"), TimestampError::InvalidSeconds);
    assert_eq!(err("1e+"), TimestampError::InvalidSeconds);
    assert_eq!(err("e1"), TimestampError::InvalidSeconds);
    assert_eq!(err("1e1e1"), TimestampError::InvalidSeconds);
}

#[test]
fn special_seconds_values() {
    let e = err("inf");
    assert_eq!(e, TimestampError::SecondsOutOfRange);
    assert_eq!(err("+Infinity"), TimestampError::SecondsOutOfRange);
    let e = err("-inf");
    assert_eq!(e, TimestampError::NegativeSeconds);
    assert_eq!(e.message(), "a second cannot be negative");
    let e = err("NaN");
    assert_eq!(e, TimestampError::SecondsNotANumber);
    assert_eq!(e.message(), "a second must be a number");
    assert_eq!(err("-nan"), TimestampError::SecondsNotANumber);
    assert_eq!(err("infinit"), TimestampError::InvalidSeconds);
    assert_eq!(err("nana"), TimestampError::InvalidSeconds);
}

#[test]
fn negative_seconds_are_refused() {
    let e = err("1:-5");
    assert_eq!(e, TimestampError::NegativeSeconds);
    assert_eq!(e.message(), "a second cannot be negative");
    assert_eq!(err("-0.5"), TimestampError::NegativeSeconds);
    assert_eq!(err("-99999999999999999999999"), TimestampError::NegativeSeconds);
    // minutes out of range are reported first
    assert_eq!(err("60:-5"), TimestampError::MinutesOutOfRange);
}

#[test]
fn too_many_values() {
    let e = err("1:2:3:4");
    assert_eq!(e, TimestampError::TooManyValues);
    assert_eq!(e.message(), "a timestamp cannot have more than 3 values");
}

#[test]
fn out_of_range() {
    let e = err("60:00");
    assert_eq!(e, TimestampError::MinutesOutOfRange);
    assert_eq!(e.message(), "a minute cannot be longer than 59 seconds");
    let e = err("1:60");
    assert_eq!(e, TimestampError::SecondsOutOfRange);
    assert_eq!(e.message(), "a second cannot be longer than 59 seconds");
    // minutes are checked before seconds
    assert_eq!(err("60:60"), TimestampError::MinutesOutOfRange);
}

#[test]
fn unreadable_values() {
    let e = err("abc");
    assert_eq!(e, TimestampError::InvalidSeconds);
    assert_eq!(e.message(), "invalid float literal");
    assert_eq!(err("."), TimestampError::InvalidSeconds);
    assert_eq!(err("1..2"), TimestampError::InvalidSeconds);
    assert_eq!(err("1: 5"), TimestampError::InvalidSeconds);
    let e = err("x:5");
    assert_eq!(e, TimestampError::InvalidMinutes(IntErrorKind::InvalidDigit));
    assert_eq!(e.message(), "invalid digit found in string");
    let e = err("300:00:00");
    assert_eq!(e, TimestampError::InvalidHours(IntErrorKind::PosOverflow));
    assert_eq!(e.message(), "number too large to fit in target type");
    assert_eq!(err("-1:00"), TimestampError::InvalidMinutes(IntErrorKind::InvalidDigit));
    assert_eq!(Timestamp::new("+7:05").unwrap().minutes(), Some(7));
}

#[test]
fn errors_come_in_order() {
    assert_eq!(err("x:y:z"), TimestampError::InvalidSeconds);
    assert_eq!(err("x:y:5"), TimestampError::InvalidMinutes(IntErrorKind::InvalidDigit));
    assert_eq!(err("x:99:5"), TimestampError::InvalidHours(IntErrorKind::InvalidDigit));
    assert_eq!(err("99:x"), TimestampError::InvalidSeconds);
    assert_eq!(err("x:60"), TimestampError::InvalidMinutes(IntErrorKind::InvalidDigit));
    assert_eq!(err("99:5"), TimestampError::MinutesOutOfRange);
}

#[test]
fn written_time_stamps_read_back() {
    for s in ["", "7", "1e1", "1:05", "10:59", "2:03:04", "255:59:59", "0:1:2", "-0.4", "59.2"] {
        let t = Timestamp::new(s).unwrap();
        let back = Timestamp::new(&t.to_string()).unwrap();
        assert_eq!(back.total_secs(), t.total_secs());
        assert_eq!(back.to_string(), t.to_string());
        assert_eq!(back.minutes(), t.minutes());
        assert_eq!(back.seconds(), t.seconds());
        if t.hours() != Some(0) {
            assert_eq!(back.hours(), t.hours());
        } else {
            assert_eq!(back.hours(), None);
        }
    }
}

#[test]
fn built_from_parts() {
    let t = Timestamp::from_parts(Some(2), Some(0), Some(9)).unwrap();
    assert_eq!(t.to_string(), "2:00:09");
    assert!(Timestamp::from_parts(Some(1), None, Some(5)).is_none());
    assert!(Timestamp::from_parts(None, Some(60), Some(5)).is_none());
    assert!(Timestamp::from_parts(None, None, Some(60)).is_none());
    assert!(Timestamp::from_parts(None, None, None).unwrap().is_empty());
}
