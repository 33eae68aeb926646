//! The checks on what the user entered before a conversion may start.
use vstd::prelude::*;

use crate::ffmpeg::{conversion_args, string_texts};
use crate::text::{chars_of, parse_unsigned, parse_unsigned_chars, split, split_chars};
use crate::timestamp::{
    lemma_parse_unsigned_bounds,
    TimeParts, empty_parts, lemma_display_parse_roundtrip, parse_timestamp, parts_wf,
    total_seconds,
};
use crate::ui::State;

verus! {

broadcast use vstd::string::group_string_axioms;

/// Adds `message` to `errors` when `failed`.
pub open spec fn push_if(errors: Seq<Seq<char>>, failed: bool, message: Seq<char>) -> Seq<
    Seq<char>,
> {
    if failed {
        errors.push(message)
    } else {
        errors
    }
}

/// The problems with the entered cut, input file and frame rate, in the
/// order they are shown: one time stamp without the other, an end at
/// zero, a start after or at the end, a missing input file, and a frame
/// rate that is not an unsigned 32-bit integer.
pub open spec fn validation_errors(
    from: TimeParts,
    to: TimeParts,
    file_exists: bool,
    fps: Seq<char>,
) -> Seq<Seq<char>> {
    let e = Seq::<Seq<char>>::empty();
    let e = push_if(
        e,
        to == empty_parts() && from != empty_parts(),
        "'to' timestamp is empty, while the 'from' timestamp is not"@,
    );
    let e = push_if(
        e,
        from == empty_parts() && to != empty_parts(),
        "'from' timestamp is empty, while the 'to' timestamp is not"@,
    );
    let e = push_if(
        e,
        to != empty_parts() && total_seconds(to) == 0,
        "'to' timestamp can't be 0"@,
    );
    let e = push_if(
        e,
        total_seconds(from) > total_seconds(to),
        "'from' timestamp is longer than the 'to' timestamp"@,
    );
    let e = push_if(
        e,
        total_seconds(from) == total_seconds(to),
        "the 'from' and 'to' timestamps cannot be the same"@,
    );
    let e = push_if(e, !file_exists, "input file does not exist"@);
    let e = push_if(
        e,
        parse_unsigned(fps, u32::MAX as int) is Err,
        "'fps' field is not a valid unsigned integer"@,
    );
    e
}

/// Adds `message` to `errors` when `failed`.
fn push_error_if(errors: &mut Vec<String>, failed: bool, message: &str)
    ensures
        string_texts(final(errors)@) == push_if(string_texts(old(errors)@), failed, message@),
{
    if failed {
        errors.push(message.to_owned());
        assert(string_texts(errors@) =~= string_texts(old(errors)@).push(message@));
    }
}

/// Checks what the user entered; `file_exists` tells whether the input
/// file exists. No errors means the conversion may start.
pub fn validate_state(state: &State, file_exists: bool) -> (errors: Vec<String>)
    ensures
        string_texts(errors@) == validation_errors(state.from@, state.to@, file_exists, state.fps@),
{
    let mut errors: Vec<String> = Vec::new();
    assert(string_texts(errors@) =~= Seq::<Seq<char>>::empty());
    let from_empty = state.from.is_empty();
    let to_empty = state.to.is_empty();
    let from_secs = state.from.total_secs();
    let to_secs = state.to.total_secs();
    push_error_if(
        &mut errors,
        to_empty && !from_empty,
        "'to' timestamp is empty, while the 'from' timestamp is not",
    );
    push_error_if(
        &mut errors,
        from_empty && !to_empty,
        "'from' timestamp is empty, while the 'to' timestamp is not",
    );
    push_error_if(&mut errors, !to_empty && to_secs == 0, "'to' timestamp can't be 0");
    push_error_if(
        &mut errors,
        from_secs > to_secs,
        "'from' timestamp is longer than the 'to' timestamp",
    );
    push_error_if(
        &mut errors,
        from_secs == to_secs,
        "the 'from' and 'to' timestamps cannot be the same",
    );
    push_error_if(&mut errors, !file_exists, "input file does not exist");
    let fps = chars_of(state.fps.as_str());
    let fps_bad = parse_unsigned_chars(&fps, 0xffff_ffffu64).is_err();
    push_error_if(&mut errors, fps_bad, "'fps' field is not a valid unsigned integer");
    errors
}

/// What the user entered passes every check exactly when both time stamps
/// are given, the start comes before the end, the input file exists and
/// the frame rate is an unsigned 32-bit integer.
pub proof fn lemma_valid_input(from: TimeParts, to: TimeParts, file_exists: bool, fps: Seq<char>)
    ensures
        validation_errors(from, to, file_exists, fps).len() == 0 <==> {
            &&& from != empty_parts()
            &&& to != empty_parts()
            &&& total_seconds(from) < total_seconds(to)
            &&& file_exists
            &&& parse_unsigned(fps, u32::MAX as int) is Ok
        },
{
    assert(total_seconds(from) >= 0);
    if from == empty_parts() && to == empty_parts() {
        assert(total_seconds(from) == total_seconds(to));
    }
}

/// When what the user entered passes every check, ffmpeg is told to cut
/// exactly the entered span: the `-ss` and `-to` arguments read back as
/// time stamps of the same lengths as the entered ones.
pub proof fn lemma_checked_cut_reaches_ffmpeg(
    file: Seq<char>,
    from: TimeParts,
    to: TimeParts,
    file_exists: bool,
    lower_720p: bool,
    mute_audio: bool,
    fps: Seq<char>,
    output: Seq<char>,
)
    requires
        parts_wf(from),
        parts_wf(to),
        validation_errors(from, to, file_exists, fps).len() == 0,
    ensures
        ({
            let args = conversion_args(file, from, to, lower_720p, mute_audio, fps, output);
            &&& args[4] == "-ss"@
            &&& args[6] == "-to"@
            &&& parse_timestamp(args[5]) matches Ok(f) && total_seconds(f) == total_seconds(from)
            &&& parse_timestamp(args[7]) matches Ok(t) && total_seconds(t) == total_seconds(to)
        }),
{
    lemma_valid_input(from, to, file_exists, fps);
    lemma_display_parse_roundtrip(from);
    lemma_display_parse_roundtrip(to);
}

/// Strict `MM:SS` text: empty text, or two unsigned integers split by one
/// `':'`, each at most 59.
pub open spec fn minutes_seconds_valid(s: Seq<char>) -> bool {
    let f = split(s, seq![':']);
    if s.len() == 0 {
        true
    } else if f.len() != 2 {
        false
    } else {
        &&& parse_unsigned(f[0], u32::MAX as int) matches Ok(m) && m <= 59
        &&& parse_unsigned(f[1], u32::MAX as int) matches Ok(sec) && sec <= 59
    }
}

/// Whether `timestamp` is strict `MM:SS` text (or empty).
pub fn validate_timestamp(timestamp: &str) -> (valid: bool)
    ensures
        valid == minutes_seconds_valid(timestamp@),
{
    let s = chars_of(timestamp);
    if s.len() == 0 {
        return true;
    }
    let seps = vec![':'];
    let f = split_chars(&s, &seps);
    assert(seps@ == seq![':']);
    if f.len() != 2 {
        return false;
    }
    let ghost fs = split(timestamp@, seq![':']);
    assert(f@[0]@ == fs[0]);
    assert(f@[1]@ == fs[1]);
    let minutes = match parse_unsigned_chars(&f[0], 0xffff_ffffu64) {
        Ok(m) => m,
        Err(_) => {
            return false;
        },
    };
    let seconds = match parse_unsigned_chars(&f[1], 0xffff_ffffu64) {
        Ok(v) => v,
        Err(_) => {
            return false;
        },
    };
    minutes <= 59 && seconds <= 59
}


/// Strict `MM:SS` text has minutes and seconds of at most 59 each: text
/// whose minutes or seconds read as a number above 59 is refused.
pub proof fn lemma_strict_parts_below_a_minute(s: Seq<char>)
    ensures
        minutes_seconds_valid(s) && s.len() > 0 ==> ({
            let f = split(s, seq![':']);
            &&& f.len() == 2
            &&& parse_unsigned(f[0], u32::MAX as int) matches Ok(m) && 0 <= m <= 59
            &&& parse_unsigned(f[1], u32::MAX as int) matches Ok(sec) && 0 <= sec <= 59
        }),
        split(s, seq![':']).len() == 2 && parse_unsigned(split(s, seq![':'])[1], u32::MAX as int)
            is Ok && parse_unsigned(split(s, seq![':'])[1], u32::MAX as int)->Ok_0 > 59
            ==> !minutes_seconds_valid(s),
        split(s, seq![':']).len() == 2 && parse_unsigned(split(s, seq![':'])[0], u32::MAX as int)
            is Ok && parse_unsigned(split(s, seq![':'])[0], u32::MAX as int)->Ok_0 > 59
            ==> !minutes_seconds_valid(s),
{
    let f = split(s, seq![':']);
    if f.len() == 2 {
        lemma_parse_unsigned_bounds(f[0], u32::MAX as int);
        lemma_parse_unsigned_bounds(f[1], u32::MAX as int);
    }
}

} // verus!
