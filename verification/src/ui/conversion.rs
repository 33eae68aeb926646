//! The conversion that ffmpeg runs, as the editor follows it.
use vstd::prelude::*;

use crate::ffmpeg::ConversionInput;
use crate::decimal::{
    capped_digits_value, concat_chars, lemma_digits_below, lemma_digits_concat,
    lemma_pow10_positive, lemma_rounded_from_bounds, lemma_rounded_monotone, pow10, rounded,
    rounded_value, scale, scaled_capped, scaled_value,
};
use crate::text::{
    all_digits, chars_of, digits_value, lemma_digits_value_nonneg,
    parse_unsigned, parse_unsigned_chars, split, split_chars, texts,
};
use crate::timestamp::{
    Timestamp, digits_only, empty_parts, lemma_parse_unsigned_bounds, total_seconds,
};
use vstd::arithmetic::div_mod::{
    lemma_div_by_multiple, lemma_div_is_ordered, lemma_fundamental_div_mod, lemma_mod_bound,
};
use vstd::arithmetic::mul::lemma_mul_nonnegative;
use crate::ui::{Effect, State, joined, shows_error};

verus! {

broadcast use vstd::string::group_string_axioms;

/// The state of the conversion that ffmpeg runs.
#[derive(Clone, Copy, Debug)]
pub struct ConversionState {
    /// Whether a conversion is running.
    pub converting: bool,
    /// How many seconds of the output ffmpeg has written.
    pub progress: u64,
    /// Whether the conversion worker has reported that it is ready.
    pub channel_ready: bool,
    /// The cut being converted, copied when the conversion began.
    pub from: Timestamp,
    pub to: Timestamp,
    /// Whether to copy the output to the clipboard when done.
    pub copy_clipboard: bool,
}

/// No conversion is running; only the worker's readiness is kept.
pub open spec fn is_idle(c: ConversionState, channel_ready: bool) -> bool {
    &&& !c.converting
    &&& c.progress == 0
    &&& c.channel_ready == channel_ready
    &&& c.from@ == empty_parts()
    &&& c.to@ == empty_parts()
    &&& !c.copy_clipboard
}

impl Default for ConversionState {
    fn default() -> (c: ConversionState)
        ensures
            is_idle(c, false),
    {
        ConversionState {
            converting: false,
            progress: 0,
            channel_ready: false,
            from: Timestamp::default(),
            to: Timestamp::default(),
            copy_clipboard: false,
        }
    }
}

impl ConversionState {
    /// Records the start of a conversion of the cut `from`..`to`.
    pub fn set(&mut self, copy_clipboard: bool, from: Timestamp, to: Timestamp)
        ensures
            *final(self) == (ConversionState {
                converting: true,
                copy_clipboard,
                from,
                to,
                ..*old(self)
            }),
    {
        self.converting = true;
        self.copy_clipboard = copy_clipboard;
        self.from = from;
        self.to = to;
    }

    /// Forgets the finished conversion, keeping the worker's readiness.
    pub fn reset(&mut self)
        ensures
            is_idle(*final(self), old(self).channel_ready),
    {
        let ready = self.channel_ready;
        *self = ConversionState { channel_ready: ready, ..ConversionState::default() };
    }
}

/// What the conversion worker reports, and the request to start it.
#[derive(Debug)]
pub enum Conversion {
    /// The worker is ready to take requests.
    Ready,
    /// Start converting the state's input into the output file.
    Start(State, String),
    Error(String),
    /// The `out_time` that ffmpeg reported.
    Progress(String),
    /// The conversion into this file has finished.
    Finished(String),
}

/// ffmpeg's `out_time`: hours, minutes and seconds, `:`-separated; hours
/// and minutes unsigned integers below `2^32`; the seconds a run of digits
/// worth at most 59, followed optionally by `'.'` and the digits of a
/// fraction. Gives the whole minutes it stands for, and the digits of the
/// seconds before and after the point.
pub open spec fn out_time_fields(p: Seq<char>) -> Option<(int, Seq<char>, Seq<char>)> {
    let f = split(p, seq![':']);
    let sp = split(f[2], seq!['.']);
    let whole = sp[0];
    let frac = if sp.len() == 2 {
        sp[1]
    } else {
        Seq::<char>::empty()
    };
    if f.len() != 3 || sp.len() > 2 || whole.len() == 0 || !all_digits(whole) || !all_digits(frac)
        || digits_value(whole) > 59 {
        None
    } else {
        match (parse_unsigned(f[0], 0xffff_ffff), parse_unsigned(f[1], 0xffff_ffff)) {
            (Ok(h), Ok(m)) => Some((h * 60 + m, whole, frac)),
            _ => None,
        }
    }
}

/// The time `60 * minutes + whole.frac` seconds as the fraction
/// `numerator / 10^|frac|`.
pub open spec fn time_numerator(minutes: int, whole: Seq<char>, frac: Seq<char>) -> int {
    60 * minutes * pow10(frac.len()) + digits_value(whole + frac)
}

/// The time that `out_time` `p` stands for is at most that of `q`.
pub open spec fn out_time_at_most(p: Seq<char>, q: Seq<char>) -> bool {
    match (out_time_fields(p), out_time_fields(q)) {
        (Some((m1, w1, f1)), Some((m2, w2, f2))) => time_numerator(m1, w1, f1) * pow10(f2.len())
            <= time_numerator(m2, w2, f2) * pow10(f1.len()),
        _ => false,
    }
}

/// The seconds of progress that an `out_time` stands for: the whole
/// minutes, plus the seconds read as an `f32` and rounded half away from
/// zero (up to 60, where they carry into the next minute); `None` for text
/// that is no `out_time` (ffmpeg's `N/A`, or the negative time it reports
/// before the first frame).
pub open spec fn out_time_progress(p: Seq<char>) -> Option<int> {
    match out_time_fields(p) {
        Some((minutes, whole, frac)) => Some(
            60 * minutes + rounded(scaled_capped(digits_value(whole + frac), -(frac.len() as int))),
        ),
        None => None,
    }
}

/// Of two fractions, the larger has the larger (or the same) whole part.
proof fn lemma_floor_monotone(x1: int, y1: int, x2: int, y2: int)
    requires
        x1 >= 0,
        x2 >= 0,
        y1 > 0,
        y2 > 0,
        x1 * y2 <= x2 * y1,
    ensures
        x1 / y1 <= x2 / y2,
{
    let q1 = x1 / y1;
    let q2 = x2 / y2;
    lemma_fundamental_div_mod(x1, y1);
    lemma_fundamental_div_mod(x2, y2);
    lemma_mod_bound(x1, y1);
    lemma_mod_bound(x2, y2);
    if q1 > q2 {
        assert(x1 >= (q2 + 1) * y1) by (nonlinear_arith)
            requires
                x1 == y1 * q1 + x1 % y1,
                x1 % y1 >= 0,
                q1 >= q2 + 1,
                y1 > 0,
        ;
        assert(x2 < (q2 + 1) * y2) by (nonlinear_arith)
            requires
                x2 == y2 * q2 + x2 % y2,
                x2 % y2 < y2,
        ;
        assert(x1 * y2 >= (q2 + 1) * y1 * y2) by (nonlinear_arith)
            requires
                x1 >= (q2 + 1) * y1,
                y2 > 0,
        ;
        assert(x2 * y1 < (q2 + 1) * y2 * y1) by (nonlinear_arith)
            requires
                x2 < (q2 + 1) * y2,
                y1 > 0,
        ;
        assert((q2 + 1) * y1 * y2 == (q2 + 1) * y2 * y1) by (nonlinear_arith);
    }
}


/// Seconds below a minute, as a fraction of `10^|frac|`, measured in steps
/// of `2^-26`.
proof fn lemma_seconds_scaled(whole: Seq<char>, frac: Seq<char>)
    requires
        all_digits(whole),
        all_digits(frac),
        digits_value(whole) <= 59,
    ensures
        digits_value(whole + frac) == digits_value(whole) * pow10(frac.len()) + digits_value(frac),
        0 <= digits_value(whole + frac) < 60 * pow10(frac.len()),
        scaled_capped(digits_value(whole + frac), -(frac.len() as int)) == (digits_value(
            whole + frac,
        ) * scale()) / (pow10(frac.len()) as int),
{
    let a = pow10(frac.len()) as int;
    let n = digits_value(whole + frac);
    lemma_digits_concat(whole, frac);
    lemma_digits_value_nonneg(whole);
    lemma_digits_value_nonneg(frac);
    lemma_digits_below(frac);
    lemma_pow10_positive(frac.len());
    assert(0 <= n < 60 * a) by (nonlinear_arith)
        requires
            n == digits_value(whole) * a + digits_value(frac),
            0 <= digits_value(whole) <= 59,
            0 <= digits_value(frac) < a,
    ;
    assert((-(-(frac.len() as int))) as nat == frac.len());
    lemma_mul_nonnegative(n, scale());
    assert(n * scale() < (60 * scale()) * a) by (nonlinear_arith)
        requires
            0 <= n < 60 * a,
            scale() > 0,
    ;
    lemma_div_is_ordered(n * scale(), (60 * scale()) * a, a);
    assert(((60 * scale()) * a) / a == 60 * scale()) by {
        lemma_div_by_multiple(60 * scale(), a);
    }
    if n * scale() / a == 60 * scale() {
        lemma_fundamental_div_mod(n * scale(), a);
        lemma_mod_bound(n * scale(), a);
        assert(false) by (nonlinear_arith)
            requires
                n * scale() == a * (60 * scale()) + (n * scale()) % a,
                (n * scale()) % a >= 0,
                n * scale() < (60 * scale()) * a,
        ;
    }
    assert(scale() == 0x400_0000);
    if frac.len() == 0 {
        assert(a == 1);
        assert(n * scale() * 1 == n * scale());
        assert((n * scale()) / 1 == n * scale());
    }
}

/// An `out_time` that stands for a later time never gives less progress.
pub proof fn lemma_out_time_monotone(p: Seq<char>, q: Seq<char>)
    requires
        out_time_at_most(p, q),
    ensures
        out_time_progress(p) matches Some(a) && out_time_progress(q) matches Some(b) && a <= b,
{
    let (m1, w1, f1) = out_time_fields(p)->0;
    let (m2, w2, f2) = out_time_fields(q)->0;
    let a1 = pow10(f1.len()) as int;
    let a2 = pow10(f2.len()) as int;
    let n1 = digits_value(w1 + f1);
    let n2 = digits_value(w2 + f2);
    lemma_out_time_fields_bounds(p);
    lemma_out_time_fields_bounds(q);
    lemma_seconds_scaled(w1, f1);
    lemma_seconds_scaled(w2, f2);
    lemma_pow10_positive(f1.len());
    lemma_pow10_positive(f2.len());
    let g1 = scaled_capped(n1, -(f1.len() as int));
    let g2 = scaled_capped(n2, -(f2.len() as int));
    lemma_rounded_from_bounds(g1, 0);
    lemma_rounded_from_bounds(g2, 0);
    assert(time_numerator(m1, w1, f1) == 60 * m1 * a1 + n1);
    assert(time_numerator(m2, w2, f2) == 60 * m2 * a2 + n2);
    if m1 == m2 {
        assert(n1 * a2 <= n2 * a1) by (nonlinear_arith)
            requires
                (60 * m1 * a1 + n1) * a2 <= (60 * m1 * a2 + n2) * a1,
        ;
        assert((n1 * scale()) * a2 <= (n2 * scale()) * a1) by (nonlinear_arith)
            requires
                n1 * a2 <= n2 * a1,
                scale() > 0,
        ;
        lemma_mul_nonnegative(n1, scale());
        lemma_mul_nonnegative(n2, scale());
        lemma_floor_monotone(n1 * scale(), a1, n2 * scale(), a2);
        lemma_rounded_monotone(g1, g2, 0);
    } else if m1 > m2 {
        assert(false) by (nonlinear_arith)
            requires
                (60 * m1 * a1 + n1) * a2 <= (60 * m2 * a2 + n2) * a1,
                m1 >= m2 + 1,
                0 <= n1,
                n2 < 60 * a2,
                a1 > 0,
                a2 > 0,
        ;
    }
}

/// What an `out_time` reads as: whole minutes that are not negative and
/// fit, and seconds of digits below a minute.
proof fn lemma_out_time_fields_bounds(p: Seq<char>)
    ensures
        out_time_fields(p) matches Some((m, whole, frac)) ==> 0 <= m <= 0xffff_ffff * 61
            && all_digits(whole) && all_digits(frac) && digits_value(whole) <= 59,
{
    let f = split(p, seq![':']);
    lemma_parse_unsigned_bounds(f[0], 0xffff_ffff);
    lemma_parse_unsigned_bounds(f[1], 0xffff_ffff);
}

/// The progress that ffmpeg's `out_time` report `p` stands for.
pub fn read_out_time(p: &str) -> (r: Option<u64>)
    ensures
        match r {
            Some(v) => out_time_progress(p@) == Some(v as int),
            None => out_time_progress(p@) is None,
        },
{
    let chars = chars_of(p);
    let colons = vec![':'];
    assert(colons@ == seq![':']);
    let f = split_chars(&chars, &colons);
    let ghost sf = split(p@, seq![':']);
    assert(texts(f@) == sf);
    if f.len() != 3 {
        return None;
    }
    assert(f@[2]@ == sf[2]);
    let dots = vec!['.'];
    assert(dots@ == seq!['.']);
    let sp = split_chars(&f[2], &dots);
    let ghost ssp = split(sf[2], seq!['.']);
    assert(texts(sp@) == ssp);
    if sp.len() > 2 {
        return None;
    }
    assert(sp@[0]@ == ssp[0]);
    let whole = &sp[0];
    let empty: Vec<char> = Vec::new();
    let frac = if sp.len() == 2 {
        assert(sp@[1]@ == ssp[1]);
        &sp[1]
    } else {
        &empty
    };
    if whole.len() == 0 || !digits_only(whole) || !digits_only(frac) {
        return None;
    }
    if capped_digits_value(whole, 64) > 59 {
        return None;
    }
    assert(f@[0]@ == sf[0]);
    assert(f@[1]@ == sf[1]);
    let h = match parse_unsigned_chars(&f[0], 0xffff_ffff) {
        Ok(v) => v,
        Err(_) => {
            return None;
        },
    };
    let m = match parse_unsigned_chars(&f[1], 0xffff_ffff) {
        Ok(v) => v,
        Err(_) => {
            return None;
        },
    };
    proof {
        lemma_out_time_fields_bounds(p@);
        lemma_parse_unsigned_bounds(sf[0], 0xffff_ffff);
        lemma_parse_unsigned_bounds(sf[1], 0xffff_ffff);
        lemma_digits_value_nonneg(whole@);
    }
    let digits = concat_chars(whole, frac);
    let g = scaled_value(&digits, whole.len() as i128);
    let r = rounded_value(g);
    proof {
        assert(whole.len() - digits@.len() == -(frac@.len() as int));
    }
    Some((h * 60 + m) * 60 + r)
}

/// What the conversion state becomes, and what is done, on a report of the
/// worker.
pub open spec fn after_conversion(
    old: ConversionState,
    c: Conversion,
    new: ConversionState,
    effect: Effect,
) -> bool {
    match c {
        Conversion::Ready => new == (ConversionState { channel_ready: true, ..old })
            && effect is Nothing,
        Conversion::Start(st, out) => new == (ConversionState {
            converting: true,
            copy_clipboard: st.copy_clipboard,
            from: st.from,
            to: st.to,
            ..old
        }) && effect == Effect::StartConversion(
            ConversionInput::Start { state: st, output_file: out },
        ),
        Conversion::Error(e) => new == old && shows_error(
            effect,
            "ffmpeg conversion error: "@ + e@,
        ),
        Conversion::Progress(p) => effect is Nothing && match out_time_progress(p@) {
            Some(v) => new == (ConversionState { progress: v as u64, ..old }),
            None => new == old,
        },
        Conversion::Finished(path) => is_idle(new, old.channel_ready) && if old.copy_clipboard {
            effect == Effect::CopyToClipboard(path)
        } else {
            effect is Nothing
        },
    }
}

/// The progress an `out_time` stands for fits in a `u64`.
proof fn lemma_out_time_progress_bounds(p: Seq<char>)
    ensures
        out_time_progress(p) matches Some(v) ==> 0 <= v <= 0xffff_ffff * 61 * 60 + 60,
{
    lemma_out_time_fields_bounds(p);
    if let Some((m, whole, frac)) = out_time_fields(p) {
        lemma_rounded_from_bounds(
            scaled_capped(digits_value(whole + frac), -(frac.len() as int)),
            0,
        );
    }
}

/// While ffmpeg reports later and later times, the progress never goes
/// back: after a report that can be read, a second report that stands for
/// the same or a later time, or that cannot be read, leaves at least as
/// much progress.
pub proof fn lemma_progress_never_goes_back(
    c0: ConversionState,
    p1: String,
    c1: ConversionState,
    e1: Effect,
    p2: String,
    c2: ConversionState,
    e2: Effect,
)
    requires
        after_conversion(c0, Conversion::Progress(p1), c1, e1),
        after_conversion(c1, Conversion::Progress(p2), c2, e2),
        out_time_progress(p1@) is Some,
        out_time_progress(p2@) is Some ==> out_time_at_most(p1@, p2@),
    ensures
        c1.progress <= c2.progress,
{
    lemma_out_time_progress_bounds(p1@);
    lemma_out_time_progress_bounds(p2@);
    if out_time_progress(p2@) is Some {
        lemma_out_time_monotone(p1@, p2@);
    }
}

/// The part of the cut that ffmpeg has converted, in whole percent
/// (rounded down), when the cut is not empty.
pub open spec fn progress_percent(c: ConversionState) -> Option<int> {
    let span = total_seconds(c.to@) - total_seconds(c.from@);
    if span <= 0 {
        None
    } else {
        Some(c.progress * 100 / span)
    }
}

impl ConversionState {
    /// The length in seconds of the cut being converted, when positive.
    pub fn progress_span(&self) -> (span: Option<u64>)
        ensures
            match span {
                Some(n) => n > 0 && n == total_seconds(self.to@) - total_seconds(self.from@),
                None => total_seconds(self.to@) <= total_seconds(self.from@),
            },
    {
        let to = self.to.total_secs();
        let from = self.from.total_secs();
        if to > from {
            Some(to - from)
        } else {
            None
        }
    }

    /// How far the conversion has come, in whole percent.
    pub fn progress_percentage(&self) -> (p: Option<u128>)
        ensures
            match p {
                Some(v) => progress_percent(*self) == Some(v as int),
                None => progress_percent(*self) is None,
            },
    {
        match self.progress_span() {
            None => None,
            Some(span) => {
                let scaled = (self.progress as u128) * 100;
                Some(scaled / (span as u128))
            },
        }
    }
}

/// Answers a report of the conversion worker, or the request to start it.
pub fn update(conversion: &mut ConversionState, message: Conversion) -> (effect: Effect)
    requires
        message matches Conversion::Start(..) ==> old(conversion).channel_ready,
    ensures
        after_conversion(*old(conversion), message, *final(conversion), effect),
{
    match message {
        Conversion::Ready => {
            conversion.channel_ready = true;
            Effect::Nothing
        },
        Conversion::Start(state, output_file) => {
            conversion.set(state.copy_clipboard, state.from, state.to);
            Effect::StartConversion(ConversionInput::Start { state, output_file })
        },
        Conversion::Error(e) => Effect::ShowError(joined("ffmpeg conversion error: ", e.as_str())),
        Conversion::Progress(p) => {
            if let Some(secs) = read_out_time(p.as_str()) {
                conversion.progress = secs;
            }
            Effect::Nothing
        },
        Conversion::Finished(path) => {
            let copy = conversion.copy_clipboard;
            conversion.reset();
            if copy {
                Effect::CopyToClipboard(path)
            } else {
                Effect::Nothing
            }
        },
    }
}


/// Starting a conversion records the cut and the clipboard choice of the
/// state it starts from, whatever its other options; when that conversion
/// finishes, its output is copied to the clipboard exactly when that state
/// asked for it.
pub proof fn lemma_start_then_finish_copies_as_asked(
    c0: ConversionState,
    st: State,
    out: String,
    c1: ConversionState,
    e1: Effect,
    path: String,
    c2: ConversionState,
    e2: Effect,
)
    requires
        after_conversion(c0, Conversion::Start(st, out), c1, e1),
        after_conversion(c1, Conversion::Finished(path), c2, e2),
    ensures
        c1.converting,
        c1.copy_clipboard == st.copy_clipboard,
        c1.from == st.from,
        c1.to == st.to,
        st.copy_clipboard ==> e2 == Effect::CopyToClipboard(path),
        !st.copy_clipboard ==> e2 is Nothing,
        !c2.converting && !c2.copy_clipboard,
{
}


/// The percentage shown is the share of the cut converted so far, in whole
/// percent rounded down: `p` percent means `p/100 <= progress/span <
/// (p+1)/100`; none is shown for a cut that is empty or runs backwards.
pub proof fn lemma_percentage_is_share_of_cut(c: ConversionState)
    ensures
        total_seconds(c.to@) <= total_seconds(c.from@) ==> progress_percent(c) is None,
        total_seconds(c.to@) > total_seconds(c.from@) ==> (progress_percent(c) matches Some(p)
            && p * (total_seconds(c.to@) - total_seconds(c.from@)) <= 100 * c.progress < (p + 1)
            * (total_seconds(c.to@) - total_seconds(c.from@))),
{
    let span = total_seconds(c.to@) - total_seconds(c.from@);
    if span > 0 {
        let x = c.progress * 100;
        lemma_fundamental_div_mod(x, span);
        lemma_mod_bound(x, span);
        let p = x / span;
        assert(p * span <= x < (p + 1) * span) by (nonlinear_arith)
            requires
                x == span * p + x % span,
                0 <= x % span < span,
        ;
    }
}

} // verus!
