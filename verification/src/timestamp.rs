//! Time stamps typed by the user as `HH:MM:SS`, `MM:SS` or `SS`.
use vstd::prelude::*;

use crate::decimal::{
    capped, capped_digits_value, concat_chars, lemma_digits_below, lemma_far_above,
    lemma_far_below, lemma_rounded_from_bounds, lemma_rounded_whole, lemma_scaled_whole, pow10, rounded, rounded_value,
    scaled_capped, scaled_value,
};

use crate::text::{
    IntErrorKind, all_digits, chars_of, decimal, digits_value, int_error_text,
    is_digit, is_digit_char, is_white_space, lemma_decimal_digits, lemma_decimal_len,
    lemma_leading_zero, lemma_scan_bounds, lemma_scan_digits_value, lemma_split_append,
    lemma_digits_value_nonneg, lemma_split_no_separator, pad2, parse_unsigned, parse_unsigned_chars, push_decimal,
    push_decimal_pad2, split, split_chars, string_of, suffix_from,
    texts, trim, trim_chars, trim_start,
};

verus! {

broadcast use vstd::string::group_string_axioms;

/// The parts of a time stamp, each present or not.
pub struct TimeParts {
    pub hours: Option<u8>,
    pub minutes: Option<u8>,
    pub seconds: Option<u8>,
}

/// The time stamp with no parts.
pub open spec fn empty_parts() -> TimeParts {
    TimeParts { hours: None, minutes: None, seconds: None }
}

/// A time stamp is filled from the right: hours only with minutes, minutes
/// only with seconds; minutes and seconds stay below one minute.
pub open spec fn parts_wf(p: TimeParts) -> bool {
    &&& (p.hours is Some ==> p.minutes is Some)
    &&& (p.minutes is Some ==> p.seconds is Some)
    &&& (p.minutes matches Some(m) ==> m <= 59)
    &&& (p.seconds matches Some(s) ==> s <= 59)
}

/// How reading a time stamp fails.
#[derive(Clone, Copy, Debug, PartialEq, Eq, Structural)]
pub enum TimestampError {
    /// More than three `:`-separated values.
    TooManyValues,
    /// The seconds value is not a number as `f32` reads one.
    InvalidSeconds,
    /// The minutes value is not an integer from 0 to 255.
    InvalidMinutes(IntErrorKind),
    /// The hours value is not an integer from 0 to 255.
    InvalidHours(IntErrorKind),
    /// Minutes above 59.
    MinutesOutOfRange,
    /// Seconds that round to more than 59, infinity among them.
    SecondsOutOfRange,
    /// Seconds that round to less than zero.
    NegativeSeconds,
    /// Seconds that are not a number (`NaN`).
    SecondsNotANumber,
}

/// The message shown for each error.
pub open spec fn timestamp_error_text(e: TimestampError) -> Seq<char> {
    match e {
        TimestampError::TooManyValues => "a timestamp cannot have more than 3 values"@,
        TimestampError::InvalidSeconds => "invalid float literal"@,
        TimestampError::InvalidMinutes(k) => int_error_text(k),
        TimestampError::InvalidHours(k) => int_error_text(k),
        TimestampError::MinutesOutOfRange => "a minute cannot be longer than 59 seconds"@,
        TimestampError::SecondsOutOfRange => "a second cannot be longer than 59 seconds"@,
        TimestampError::NegativeSeconds => "a second cannot be negative"@,
        TimestampError::SecondsNotANumber => "a second must be a number"@,
    }
}

impl TimestampError {
    /// The message shown for this error.
    pub fn message(&self) -> (s: String)
        ensures
            s@ == timestamp_error_text(*self),
    {
        match self {
            TimestampError::TooManyValues => "a timestamp cannot have more than 3 values".to_owned(),
            TimestampError::InvalidSeconds => "invalid float literal".to_owned(),
            TimestampError::InvalidMinutes(k) => k.message(),
            TimestampError::InvalidHours(k) => k.message(),
            TimestampError::MinutesOutOfRange => "a minute cannot be longer than 59 seconds".to_owned(),
            TimestampError::SecondsOutOfRange => "a second cannot be longer than 59 seconds".to_owned(),
            TimestampError::NegativeSeconds => "a second cannot be negative".to_owned(),
            TimestampError::SecondsNotANumber => "a second must be a number".to_owned(),
        }
    }
}

// ---------------------------------------------------------------------------
// Reading a time stamp
// ---------------------------------------------------------------------------

/// The sign of a seconds field: `true` for a leading `'-'`.
pub open spec fn numeral_negative(f: Seq<char>) -> bool {
    f.len() > 0 && f[0] == '-'
}

/// A seconds field without its sign.
pub open spec fn numeral_body(f: Seq<char>) -> Seq<char> {
    if f.len() > 0 && (f[0] == '-' || f[0] == '+') {
        f.drop_first()
    } else {
        f
    }
}

/// `s` spells `word`, letter by letter in either case.
pub open spec fn is_word(s: Seq<char>, lower: Seq<char>, upper: Seq<char>) -> bool {
    &&& s.len() == lower.len()
    &&& s.len() == upper.len()
    &&& forall|i: int| 0 <= i < s.len() ==> #[trigger] s[i] == lower[i] || s[i] == upper[i]
}

/// `nan` in any case.
pub open spec fn is_nan_word(s: Seq<char>) -> bool {
    is_word(s, seq!['n', 'a', 'n'], seq!['N', 'A', 'N'])
}

/// `inf` or `infinity` in any case.
pub open spec fn is_infinity_word(s: Seq<char>) -> bool {
    ||| is_word(s, seq!['i', 'n', 'f'], seq!['I', 'N', 'F'])
    ||| is_word(
        s,
        seq!['i', 'n', 'f', 'i', 'n', 'i', 't', 'y'],
        seq!['I', 'N', 'F', 'I', 'N', 'I', 'T', 'Y'],
    )
}

/// The exponent after `e`: an optional sign and at least one digit.
pub open spec fn exponent_value(t: Seq<char>) -> Option<int> {
    let d = numeral_body(t);
    if d.len() == 0 || !all_digits(d) {
        None
    } else if numeral_negative(t) {
        Some(-digits_value(d))
    } else {
        Some(digits_value(d))
    }
}

/// An unsigned decimal number as `f32` parsing reads one: digits, an
/// optional `'.'` with more digits, at least one digit in all, then
/// optionally `e` or `E` and an exponent. Its value is given as its digits
/// without the point, and the power of ten of the last of them.
pub open spec fn float_digits(b: Seq<char>) -> Option<(Seq<char>, int)> {
    let ep = split(b, seq!['e', 'E']);
    let mp = split(ep[0], seq!['.']);
    let whole = mp[0];
    let frac = if mp.len() == 2 {
        mp[1]
    } else {
        Seq::<char>::empty()
    };
    let exp = if ep.len() == 1 {
        Some(0int)
    } else {
        exponent_value(ep[1])
    };
    if ep.len() > 2 || mp.len() > 2 || !all_digits(whole) || !all_digits(frac) || whole.len()
        + frac.len() == 0 || exp is None {
        None
    } else {
        Some((whole + frac, exp->0 - frac.len()))
    }
}

/// What a seconds field reads as, rounded to whole seconds.
#[derive(Clone, Copy, Debug, PartialEq, Eq, Structural)]
pub enum SecondsValue {
    /// A whole number of seconds from 0 to 59.
    Whole(u8),
    /// More than 59 seconds once rounded, or infinity.
    TooLarge,
    /// Less than zero once rounded, or minus infinity.
    Negative,
    /// Not a number.
    NotANumber,
}

/// The class of a rounded number of seconds `r >= 0`, negated where `neg`.
pub open spec fn seconds_value(neg: bool, r: int) -> SecondsValue {
    if r == 0 {
        SecondsValue::Whole(0)
    } else if neg {
        SecondsValue::Negative
    } else if r >= 60 {
        SecondsValue::TooLarge
    } else {
        SecondsValue::Whole(r as u8)
    }
}

/// A seconds field read as an `f32` and rounded half away from zero: an
/// optional sign, then `nan`, `inf`, `infinity` or a decimal number.
/// The number is measured exactly in units of `2^-26` (capped at 64 s),
/// which decides the `f32` nearest to it and how that rounds.
pub open spec fn seconds_reading(f: Seq<char>) -> Option<SecondsValue> {
    let neg = numeral_negative(f);
    let b = numeral_body(f);
    if is_nan_word(b) {
        Some(SecondsValue::NotANumber)
    } else if is_infinity_word(b) {
        Some(
            if neg {
                SecondsValue::Negative
            } else {
                SecondsValue::TooLarge
            },
        )
    } else {
        match float_digits(b) {
            None => None,
            Some((d, q)) => Some(seconds_value(neg, rounded(scaled_capped(digits_value(d), q)))),
        }
    }
}

/// A seconds field: empty means zero.
pub open spec fn seconds_field(f: Seq<char>) -> Option<SecondsValue> {
    if f.len() == 0 {
        Some(SecondsValue::Whole(0))
    } else {
        seconds_reading(f)
    }
}

/// A minutes or hours field: empty means zero, otherwise a `u8`.
pub open spec fn unit_field(f: Seq<char>) -> Result<int, IntErrorKind> {
    if f.len() == 0 {
        Ok(0)
    } else {
        parse_unsigned(f, 255)
    }
}

/// What reading the text `s` as a time stamp gives.
///
/// The text is trimmed; empty text is the empty time stamp. Otherwise it is
/// split at `':'` into at most three fields, read from the right as seconds,
/// minutes and hours. Errors are reported in this order: seconds, minutes
/// and hours that cannot be read, then minutes above 59, then seconds
/// above 59, then negative seconds, then seconds that are not a number.
pub open spec fn parse_timestamp(s: Seq<char>) -> Result<TimeParts, TimestampError> {
    let t = trim(s);
    let fields = split(t, seq![':']);
    let n = fields.len();
    let sec = seconds_field(fields[n - 1]);
    let min = if n >= 2 {
        unit_field(fields[n - 2])
    } else {
        Ok(0)
    };
    let hr = if n == 3 {
        unit_field(fields[0])
    } else {
        Ok(0)
    };
    if t.len() == 0 {
        Ok(empty_parts())
    } else if n > 3 {
        Err(TimestampError::TooManyValues)
    } else if sec is None {
        Err(TimestampError::InvalidSeconds)
    } else if min is Err {
        Err(TimestampError::InvalidMinutes(min->Err_0))
    } else if hr is Err {
        Err(TimestampError::InvalidHours(hr->Err_0))
    } else if min->Ok_0 > 59 {
        Err(TimestampError::MinutesOutOfRange)
    } else if sec->0 is TooLarge {
        Err(TimestampError::SecondsOutOfRange)
    } else if sec->0 is Negative {
        Err(TimestampError::NegativeSeconds)
    } else if sec->0 is NotANumber {
        Err(TimestampError::SecondsNotANumber)
    } else {
        Ok(
            TimeParts {
                hours: if n == 3 {
                    Some(hr->Ok_0 as u8)
                } else {
                    None
                },
                minutes: if n >= 2 {
                    Some(min->Ok_0 as u8)
                } else {
                    None
                },
                seconds: Some(sec->0->Whole_0),
            },
        )
    }
}

// ---------------------------------------------------------------------------
// Measuring and writing a time stamp
// ---------------------------------------------------------------------------

/// The whole seconds a time stamp stands for: missing parts count as zero.
pub open spec fn total_seconds(p: TimeParts) -> int {
    let h = match p.hours {
        Some(h) => h as int,
        None => 0,
    };
    let m = match p.minutes {
        Some(m) => m as int,
        None => 0,
    };
    let s = match p.seconds {
        Some(s) => s as int,
        None => 0,
    };
    h * 3600 + m * 60 + s
}

/// How a time stamp is written: `H:MM:SS` with hours, `MM:SS` when the
/// hours are absent or zero, `SS` with seconds only, and nothing at all for
/// the empty time stamp.
pub open spec fn display_parts(p: TimeParts) -> Seq<char> {
    match (p.hours, p.minutes, p.seconds) {
        (Some(h), Some(m), Some(s)) => if h == 0 {
            pad2(decimal(m as nat)) + seq![':'] + pad2(decimal(s as nat))
        } else {
            decimal(h as nat) + seq![':'] + pad2(decimal(m as nat)) + seq![':'] + pad2(
                decimal(s as nat),
            )
        },
        (None, Some(m), Some(s)) => pad2(decimal(m as nat)) + seq![':'] + pad2(decimal(s as nat)),
        (None, None, Some(s)) => pad2(decimal(s as nat)),
        _ => Seq::<char>::empty(),
    }
}

// ---------------------------------------------------------------------------
// The type
// ---------------------------------------------------------------------------

/// A time stamp with hours, minutes and seconds. It can be empty but not
/// invalid.
#[derive(Clone, Copy, Debug)]
pub struct Timestamp {
    hours: Option<u8>,
    minutes: Option<u8>,
    seconds: Option<u8>,
}

impl View for Timestamp {
    type V = TimeParts;

    closed spec fn view(&self) -> TimeParts {
        TimeParts { hours: self.hours, minutes: self.minutes, seconds: self.seconds }
    }
}

impl Timestamp {
    #[verifier::type_invariant]
    closed spec fn well_formed(self) -> bool {
        parts_wf(self@)
    }

    /// The hours, if the time stamp has them.
    pub fn hours(&self) -> (h: Option<u8>)
        ensures
            h == self@.hours,
    {
        self.hours
    }

    /// The minutes, if the time stamp has them.
    pub fn minutes(&self) -> (m: Option<u8>)
        ensures
            m == self@.minutes,
    {
        self.minutes
    }

    /// The seconds, if the time stamp has them.
    pub fn seconds(&self) -> (s: Option<u8>)
        ensures
            s == self@.seconds,
    {
        self.seconds
    }

    /// The time stamp with the given parts, if they are well formed.
    pub fn from_parts(hours: Option<u8>, minutes: Option<u8>, seconds: Option<u8>) -> (r: Option<
        Timestamp,
    >)
        ensures
            match r {
                Some(t) => parts_wf(TimeParts { hours, minutes, seconds }) && t@ == TimeParts {
                    hours,
                    minutes,
                    seconds,
                },
                None => !parts_wf(TimeParts { hours, minutes, seconds }),
            },
    {
        let shape_ok = (hours.is_none() || minutes.is_some()) && (minutes.is_none()
            || seconds.is_some());
        let minutes_ok = match minutes {
            Some(m) => m <= 59,
            None => true,
        };
        let seconds_ok = match seconds {
            Some(s) => s <= 59,
            None => true,
        };
        if shape_ok && minutes_ok && seconds_ok {
            Some(Timestamp { hours, minutes, seconds })
        } else {
            None
        }
    }

    /// Reads a time stamp from `HH:MM:SS`, `MM:SS` or `SS` text.
    pub fn new(timestamp: &str) -> (res: Result<Timestamp, TimestampError>)
        ensures
            match res {
                Ok(t) => parse_timestamp(timestamp@) == Ok::<TimeParts, TimestampError>(t@),
                Err(e) => parse_timestamp(timestamp@) == Err::<TimeParts, TimestampError>(e),
            },
    {
        let raw = chars_of(timestamp);
        let t = trim_chars(&raw);
        let seps = vec![':'];
        let fields = split_chars(&t, &seps);
        let ghost tf = split(t@, seq![':']);
        assert(seps@ == seq![':']);
        assert(texts(fields@) == tf);
        if t.len() == 0 {
            return Ok(Timestamp { hours: None, minutes: None, seconds: None });
        }
        let n = fields.len();
        if n > 3 {
            return Err(TimestampError::TooManyValues);
        }
        assert(fields@[n - 1]@ == tf[n - 1]);
        let sec = read_seconds_field(&fields[n - 1]);
        proof {
            lemma_seconds_below_minute(tf[n - 1]);
        }
        let sec = match sec {
            Some(v) => v,
            None => {
                return Err(TimestampError::InvalidSeconds);
            },
        };
        let mut min: u64 = 0;
        if n >= 2 {
            assert(fields@[n - 2]@ == tf[n - 2]);
            match read_unit_field(&fields[n - 2]) {
                Ok(v) => {
                    min = v;
                },
                Err(k) => {
                    return Err(TimestampError::InvalidMinutes(k));
                },
            }
        }
        let mut hr: u64 = 0;
        if n == 3 {
            assert(fields@[0]@ == tf[0]);
            match read_unit_field(&fields[0]) {
                Ok(v) => {
                    hr = v;
                },
                Err(k) => {
                    return Err(TimestampError::InvalidHours(k));
                },
            }
        }
        if min > 59 {
            return Err(TimestampError::MinutesOutOfRange);
        }
        let sec = match sec {
            SecondsValue::Whole(v) => v,
            SecondsValue::TooLarge => {
                return Err(TimestampError::SecondsOutOfRange);
            },
            SecondsValue::Negative => {
                return Err(TimestampError::NegativeSeconds);
            },
            SecondsValue::NotANumber => {
                return Err(TimestampError::SecondsNotANumber);
            },
        };
        let hours = if n == 3 {
            Some(hr as u8)
        } else {
            None
        };
        let minutes = if n >= 2 {
            Some(min as u8)
        } else {
            None
        };
        Ok(Timestamp { hours, minutes, seconds: Some(sec) })
    }

    /// The whole seconds the time stamp stands for.
    pub fn total_secs(&self) -> (secs: u64)
        ensures
            secs == total_seconds(self@),
    {
        let h: u64 = match self.hours {
            Some(h) => h as u64,
            None => 0,
        };
        let m: u64 = match self.minutes {
            Some(m) => m as u64,
            None => 0,
        };
        let s: u64 = match self.seconds {
            Some(s) => s as u64,
            None => 0,
        };
        h * 3600 + m * 60 + s
    }

    /// Whether the time stamp has no parts.
    pub fn is_empty(&self) -> (b: bool)
        ensures
            b == (self@ == empty_parts()),
    {
        self.hours.is_none() && self.minutes.is_none() && self.seconds.is_none()
    }

    /// The time stamp as text: `H:MM:SS`, `MM:SS`, `SS`, or nothing.
    pub fn to_string(&self) -> (s: String)
        ensures
            s@ == display_parts(self@),
    {
        let mut out: Vec<char> = Vec::new();
        match (self.hours, self.minutes, self.seconds) {
            (Some(h), Some(m), Some(s)) => {
                if h != 0 {
                    push_decimal(&mut out, h as u64);
                    out.push(':');
                }
                push_decimal_pad2(&mut out, m as u64);
                out.push(':');
                push_decimal_pad2(&mut out, s as u64);
            },
            (None, Some(m), Some(s)) => {
                push_decimal_pad2(&mut out, m as u64);
                out.push(':');
                push_decimal_pad2(&mut out, s as u64);
            },
            (None, None, Some(s)) => {
                push_decimal_pad2(&mut out, s as u64);
            },
            _ => {},
        }
        assert(out@ =~= display_parts(self@));
        string_of(&out)
    }
}

impl Default for Timestamp {
    fn default() -> (t: Timestamp)
        ensures
            t@ == empty_parts(),
    {
        Timestamp { hours: None, minutes: None, seconds: None }
    }
}

/// Reads a minutes or hours field.
fn read_unit_field(f: &Vec<char>) -> (r: Result<u64, IntErrorKind>)
    ensures
        match r {
            Ok(v) => unit_field(f@) == Ok::<int, IntErrorKind>(v as int) && v <= 255,
            Err(e) => unit_field(f@) == Err::<int, IntErrorKind>(e),
        },
{
    if f.len() == 0 {
        return Ok(0);
    }
    let r = parse_unsigned_chars(f, 255);
    proof {
        if r is Ok {
            lemma_parse_unsigned_bounds(f@, 255);
        }
    }
    r
}

/// Whether `s` spells the word given in lower and in upper case.
fn is_word_chars(s: &Vec<char>, lower: &Vec<char>, upper: &Vec<char>) -> (b: bool)
    ensures
        b == is_word(s@, lower@, upper@),
{
    if s.len() != lower.len() || s.len() != upper.len() {
        return false;
    }
    for i in 0..s.len()
        invariant
            s.len() == lower.len() == upper.len(),
            forall|j: int| 0 <= j < i ==> #[trigger] s@[j] == lower@[j] || s@[j] == upper@[j],
    {
        if s[i] != lower[i] && s[i] != upper[i] {
            return false;
        }
    }
    true
}

/// The largest exponent followed exactly; larger ones are held at it.
pub open spec fn exponent_cap() -> int {
    0x1_0000_0000_0000_0000_0000
}

/// Reads an exponent, holding its size at `exponent_cap()`.
fn read_exponent(t: &Vec<char>) -> (r: Option<i128>)
    ensures
        match r {
            None => exponent_value(t@) is None,
            Some(e) => exponent_value(t@) matches Some(x) && if x >= 0 {
                e == capped(x, exponent_cap())
            } else {
                e == -capped(-x, exponent_cap())
            },
        },
{
    let mut start: usize = 0;
    if t.len() > 0 && (t[0] == '-' || t[0] == '+') {
        start = 1;
    }
    let d = suffix_from(t, start);
    assert(d@ == numeral_body(t@));
    if d.len() == 0 || !digits_only(&d) {
        return None;
    }
    let m = capped_digits_value(&d, 0x1_0000_0000_0000_0000_0000u128);
    proof {
        lemma_digits_value_nonneg(d@);
    }
    if t[0] == '-' {
        Some(-(m as i128))
    } else {
        Some(m as i128)
    }
}

/// Reads an unsigned decimal number: its digits without the point, and
/// where the point stands, counted from the first digit (the exponent
/// held as `read_exponent` holds it).
fn read_float_digits(b: &Vec<char>) -> (r: Option<(Vec<char>, i128)>)
    ensures
        match r {
            None => float_digits(b@) is None,
            Some((d, p)) => float_digits(b@) matches Some((d2, q)) && d@ == d2 && all_digits(d@)
                && -0x1_0000_0000_0000_0000_0000_0000 <= p <= 0x1_0000_0000_0000_0000_0000_0000
                && scaled_capped(digits_value(d@), p - d@.len()) == scaled_capped(
                digits_value(d2),
                q,
            ),
        },
{
    let marks = vec!['e', 'E'];
    assert(marks@ == seq!['e', 'E']);
    let ep = split_chars(b, &marks);
    let ghost sep = split(b@, seq!['e', 'E']);
    assert(texts(ep@) == sep);
    if ep.len() > 2 {
        return None;
    }
    assert(ep@[0]@ == sep[0]);
    let dots = vec!['.'];
    assert(dots@ == seq!['.']);
    let mp = split_chars(&ep[0], &dots);
    let ghost smp = split(sep[0], seq!['.']);
    assert(texts(mp@) == smp);
    if mp.len() > 2 {
        return None;
    }
    assert(mp@[0]@ == smp[0]);
    let whole = &mp[0];
    let empty: Vec<char> = Vec::new();
    let frac = if mp.len() == 2 {
        assert(mp@[1]@ == smp[1]);
        &mp[1]
    } else {
        &empty
    };
    if !digits_only(whole) || !digits_only(frac) || (whole.len() == 0 && frac.len() == 0) {
        return None;
    }
    let mut e: i128 = 0;
    if ep.len() == 2 {
        assert(ep@[1]@ == sep[1]);
        match read_exponent(&ep[1]) {
            Some(x) => {
                e = x;
            },
            None => {
                return None;
            },
        }
    }
    let d = concat_chars(whole, frac);
    let flen: usize = frac.len();
    let p: i128 = whole.len() as i128 + e;
    proof {
        let (d2, q) = float_digits(b@)->0;
        assert(d2 == d@);
        let v = digits_value(d@);
        lemma_digits_value_nonneg(d@);
        assert(all_digits(d@)) by {
            assert forall|i: int| 0 <= i < d@.len() implies is_digit(#[trigger] d@[i]) by {
                if i >= whole@.len() {
                    assert(d@[i] == frac@[i - whole@.len()]);
                } else {
                    assert(d@[i] == whole@[i]);
                }
            }
        }
        if ep.len() == 2 {
            let x = exponent_value(sep[1])->0;
            assert(q == x - frac@.len());
            assert(d@.len() == whole@.len() + frac@.len());
            assert(p - d@.len() == e - frac@.len());
            assert(frac@.len() == flen);
            if x >= exponent_cap() {
                assert(e == exponent_cap());
                lemma_far_above(v, p - d@.len(), q);
            } else if x <= -exponent_cap() {
                assert(e == -exponent_cap());
                lemma_digits_below(d@);
                lemma_far_below(v, d@.len(), p - d@.len());
                lemma_far_below(v, d@.len(), q);
            }
        }
    }
    Some((d, p))
}

/// Reads a seconds field.
fn read_seconds_field(f: &Vec<char>) -> (r: Option<SecondsValue>)
    ensures
        r == seconds_field(f@),
{
    if f.len() == 0 {
        return Some(SecondsValue::Whole(0));
    }
    let mut neg = false;
    let mut start: usize = 0;
    if f[0] == '-' || f[0] == '+' {
        neg = f[0] == '-';
        start = 1;
    }
    let body = suffix_from(f, start);
    assert(body@ == numeral_body(f@));
    let nan_lower = vec!['n', 'a', 'n'];
    let nan_upper = vec!['N', 'A', 'N'];
    if is_word_chars(&body, &nan_lower, &nan_upper) {
        return Some(SecondsValue::NotANumber);
    }
    let inf_lower = vec!['i', 'n', 'f'];
    let inf_upper = vec!['I', 'N', 'F'];
    let infinity_lower = vec!['i', 'n', 'f', 'i', 'n', 'i', 't', 'y'];
    let infinity_upper = vec!['I', 'N', 'F', 'I', 'N', 'I', 'T', 'Y'];
    if is_word_chars(&body, &inf_lower, &inf_upper) || is_word_chars(
        &body,
        &infinity_lower,
        &infinity_upper,
    ) {
        return Some(
            if neg {
                SecondsValue::Negative
            } else {
                SecondsValue::TooLarge
            },
        );
    }
    match read_float_digits(&body) {
        None => None,
        Some((d, p)) => {
            let r = rounded_value(scaled_value(&d, p));
            Some(
                if r == 0 {
                    SecondsValue::Whole(0)
                } else if neg {
                    SecondsValue::Negative
                } else if r >= 60 {
                    SecondsValue::TooLarge
                } else {
                    SecondsValue::Whole(r as u8)
                },
            )
        },
    }
}

/// Whether every character is a decimal digit.
pub fn digits_only(v: &Vec<char>) -> (b: bool)
    ensures
        b == all_digits(v@),
{
    for i in 0..v.len()
        invariant
            forall|j: int| 0 <= j < i ==> is_digit(#[trigger] v@[j]),
    {
        if !is_digit_char(v[i]) {
            return false;
        }
    }
    true
}

// ---------------------------------------------------------------------------
// Laws
// ---------------------------------------------------------------------------

/// A time stamp whose zero hours are left out, as writing it does.
pub open spec fn drop_zero_hours(p: TimeParts) -> TimeParts {
    if p.hours == Some(0u8) {
        TimeParts { hours: None, minutes: p.minutes, seconds: p.seconds }
    } else {
        p
    }
}

/// A whole number of seconds read from a field is below one minute.
pub proof fn lemma_seconds_below_minute(f: Seq<char>)
    ensures
        seconds_field(f) matches Some(SecondsValue::Whole(v)) ==> v <= 59,
{
    let b = numeral_body(f);
    if let Some((d, q)) = float_digits(b) {
        lemma_rounded_from_bounds(scaled_capped(digits_value(d), q), 0);
    }
}

/// What a successful read gives is a well-formed time stamp.
pub proof fn lemma_parse_well_formed(s: Seq<char>)
    ensures
        parse_timestamp(s) matches Ok(p) ==> parts_wf(p),
{
    let fields = split(trim(s), seq![':']);
    let n = fields.len();
    lemma_seconds_below_minute(fields[n - 1]);
    if n >= 2 {
        lemma_parse_unsigned_bounds(fields[n - 2], 255);
    }
}

/// Blank text, white space only, reads as the empty time stamp.
pub proof fn lemma_blank_is_empty(s: Seq<char>)
    requires
        forall|i: int| 0 <= i < s.len() ==> is_white_space(#[trigger] s[i]),
    ensures
        parse_timestamp(s) == Ok::<TimeParts, TimestampError>(empty_parts()),
    decreases s.len(),
{
    if s.len() > 0 {
        assert(is_white_space(s[0]));
        assert forall|i: int| 0 <= i < s.drop_first().len() implies is_white_space(
            #[trigger] s.drop_first()[i],
        ) by {
            assert(s.drop_first()[i] == s[i + 1]);
        }
        lemma_blank_is_empty(s.drop_first());
        assert(trim_start(s) == trim_start(s.drop_first()));
    } else {
        assert(trim(s) == s);
    }
}

/// Text made of digits is no separator, sign, point or white space.
proof fn lemma_digits_are_plain(x: Seq<char>)
    requires
        all_digits(x),
    ensures
        forall|i: int|
            0 <= i < x.len() ==> {
                &&& !is_white_space(#[trigger] x[i])
                &&& x[i] != ':'
                &&& x[i] != '.'
                &&& x[i] != '-'
                &&& x[i] != '+'
                &&& x[i] != 'e'
                &&& x[i] != 'E'
            },
{
    assert forall|i: int| 0 <= i < x.len() implies {
        &&& !is_white_space(#[trigger] x[i])
        &&& x[i] != ':'
        &&& x[i] != '.'
        &&& x[i] != '-'
        &&& x[i] != '+'
        &&& x[i] != 'e'
        &&& x[i] != 'E'
    } by {
        assert(is_digit(x[i]));
    }
}

/// `pad2(decimal(n))` is a run of digits worth `n`.
proof fn lemma_pad2_decimal(n: nat)
    ensures
        all_digits(pad2(decimal(n))),
        digits_value(pad2(decimal(n))) == n,
        pad2(decimal(n)).len() >= 2,
{
    lemma_decimal_digits(n);
    lemma_decimal_len(n);
    if decimal(n).len() < 2 {
        lemma_leading_zero(decimal(n));
        assert('0' as u32 == 0x30);
        assert(all_digits(pad2(decimal(n)))) by {
            assert forall|i: int| 0 <= i < pad2(decimal(n)).len() implies is_digit(
                #[trigger] pad2(decimal(n))[i],
            ) by {
                if i > 0 {
                    assert(pad2(decimal(n))[i] == decimal(n)[i - 1]);
                }
            }
        }
    }
}

/// A digit field worth at most 255 reads back as its value.
proof fn lemma_unit_field_digits(x: Seq<char>)
    requires
        all_digits(x),
        x.len() > 0,
        digits_value(x) <= 255,
    ensures
        unit_field(x) == Ok::<int, IntErrorKind>(digits_value(x)),
{
    lemma_digits_are_plain(x);
    lemma_scan_digits_value(x, 255);
}

/// How a seconds value is written: no separators or white space, a
/// digit at the end, and it reads back as the same value.
proof fn lemma_seconds_written(v: u8)
    requires
        v <= 59,
    ensures
        pad2(decimal(v as nat)).len() >= 2,
        forall|i: int|
            0 <= i < pad2(decimal(v as nat)).len() ==> {
                &&& !is_white_space(#[trigger] pad2(decimal(v as nat))[i])
                &&& pad2(decimal(v as nat))[i] != ':'
            },
        is_digit(pad2(decimal(v as nat)).last()),
        seconds_field(pad2(decimal(v as nat))) == Some(SecondsValue::Whole(v)),
{
    let x = pad2(decimal(v as nat));
    lemma_pad2_decimal(v as nat);
    lemma_digits_are_plain(x);
    assert(is_digit(x[0]));
    assert(is_digit(x[x.len() - 1]));
    assert(numeral_body(x) == x);
    assert(!is_nan_word(x)) by {
        if is_nan_word(x) {
            assert(x[0] == seq!['n', 'a', 'n'][0] || x[0] == seq!['N', 'A', 'N'][0]);
        }
    }
    assert(!is_infinity_word(x)) by {
        if is_word(x, seq!['i', 'n', 'f'], seq!['I', 'N', 'F']) {
            assert(x[0] == seq!['i', 'n', 'f'][0] || x[0] == seq!['I', 'N', 'F'][0]);
        }
        if is_word(
            x,
            seq!['i', 'n', 'f', 'i', 'n', 'i', 't', 'y'],
            seq!['I', 'N', 'F', 'I', 'N', 'I', 'T', 'Y'],
        ) {
            assert(x[0] == seq!['i', 'n', 'f', 'i', 'n', 'i', 't', 'y'][0] || x[0] == seq![
                'I',
                'N',
                'F',
                'I',
                'N',
                'I',
                'T',
                'Y',
            ][0]);
        }
    }
    lemma_split_no_separator(x, seq!['e', 'E']);
    lemma_split_no_separator(x, seq!['.']);
    assert(x + Seq::<char>::empty() =~= x);
    assert(float_digits(x) == Some((x, 0int)));
    lemma_scaled_whole(v as int, 0);
    assert(pow10(0) == 1);
    assert(v as int * 1 == v as int);
    lemma_rounded_whole(v as int, 0);
}

/// Trimming leaves text alone that starts and ends with non-space.
proof fn lemma_trim_plain(x: Seq<char>)
    requires
        x.len() > 0,
        !is_white_space(x[0]),
        !is_white_space(x.last()),
    ensures
        trim(x) == x,
{
}

/// Reading what `to_string` writes gives back the same time stamp, except
/// that zero hours, which are not written, come back absent; the total
/// seconds and the written form are the same.
pub proof fn lemma_display_parse_roundtrip(p: TimeParts)
    requires
        parts_wf(p),
    ensures
        parse_timestamp(display_parts(p)) == Ok::<TimeParts, TimestampError>(drop_zero_hours(p)),
        total_seconds(drop_zero_hours(p)) == total_seconds(p),
        display_parts(drop_zero_hours(p)) == display_parts(p),
{
    let colon = seq![':'];
    assert(colon.contains(':')) by {
        assert(colon[0] == ':');
    }
    match p.seconds {
        None => {
            assert(display_parts(p) == Seq::<char>::empty());
            assert(trim(Seq::<char>::empty()) == Seq::<char>::empty());
            assert(p == empty_parts());
        },
        Some(sv) => {
            let c = pad2(decimal(sv as nat));
            lemma_seconds_written(sv);
            match p.minutes {
                None => {
                    assert(display_parts(p) == c);
                    lemma_trim_plain(c);
                    lemma_split_no_separator(c, colon);
                    assert(split(trim(c), colon) == seq![c]);
                },
                Some(mv) => {
                    let b = pad2(decimal(mv as nat));
                    lemma_pad2_decimal(mv as nat);
                    lemma_digits_are_plain(b);
                    lemma_unit_field_digits(b);
                    lemma_split_no_separator(b, colon);
                    let is_zero_or_none = match p.hours {
                        None => true,
                        Some(h) => h == 0,
                    };
                    if is_zero_or_none {
                        let d = b + colon + c;
                        assert(display_parts(p) == d);
                        lemma_split_append(b, ':', c, colon);
                        assert(d[0] == b[0]);
                        assert(d.last() == c.last());
                        lemma_trim_plain(d);
                        assert(split(trim(d), colon) =~= seq![b, c]);
                        assert(split(trim(d), colon)[1] == c);
                    } else {
                        let hv = p.hours->0;
                        let a = decimal(hv as nat);
                        lemma_decimal_digits(hv as nat);
                        lemma_digits_are_plain(a);
                        lemma_unit_field_digits(a);
                        lemma_split_no_separator(a, colon);
                        let ab = a + colon + b;
                        let d = ab + colon + c;
                        assert(display_parts(p) == d);
                        lemma_split_append(a, ':', b, colon);
                        lemma_split_append(ab, ':', c, colon);
                        assert(d[0] == a[0]);
                        assert(d.last() == c.last());
                        lemma_trim_plain(d);
                        assert(split(trim(d), colon) =~= seq![a, b, c]);
                        assert(split(trim(d), colon)[2] == c);
                        assert(split(trim(d), colon)[1] == b);
                        assert(split(trim(d), colon)[0] == a);
                    }
                },
            }
        },
    }
}

/// A successful parse stays within `0..=max`.
pub proof fn lemma_parse_unsigned_bounds(s: Seq<char>, max: int)
    requires
        max >= 0,
    ensures
        parse_unsigned(s, max) matches Ok(v) ==> 0 <= v <= max,
{
    lemma_scan_bounds(s, max);
    if s.len() > 0 {
        lemma_scan_bounds(s.drop_first(), max);
    }
}


/// A time stamp stands for 3600 seconds per hour, 60 per minute and one
/// per second, a missing part counting as none.
pub proof fn lemma_total_seconds_counts_each_part(p: TimeParts)
    ensures
        total_seconds(p) == 3600 * (match p.hours {
            Some(hours) => hours as int,
            None => 0int,
        }) + 60 * (match p.minutes {
            Some(minutes) => minutes as int,
            None => 0int,
        }) + (match p.seconds {
            Some(seconds) => seconds as int,
            None => 0int,
        }),
{
}

/// One more hour is 3600 seconds more, one more minute 60 seconds more,
/// one more second one second more.
pub proof fn lemma_total_seconds_steps(p: TimeParts, h: u8, m: u8, s: u8)
    requires
        h < 255,
        m < 255,
        s < 255,
    ensures
        total_seconds(TimeParts { hours: Some((h + 1) as u8), ..p }) == total_seconds(
            TimeParts { hours: Some(h), ..p },
        ) + 3600,
        total_seconds(TimeParts { minutes: Some((m + 1) as u8), ..p }) == total_seconds(
            TimeParts { minutes: Some(m), ..p },
        ) + 60,
        total_seconds(TimeParts { seconds: Some((s + 1) as u8), ..p }) == total_seconds(
            TimeParts { seconds: Some(s), ..p },
        ) + 1,
        total_seconds(TimeParts { hours: Some(0u8), ..p }) == total_seconds(
            TimeParts { hours: None, ..p },
        ),
{
}

} // verus!
