//! What is asked of ffmpeg and ffprobe, and how their answers are read.
//!
//! Running the programs is left to the caller; these functions decide which
//! program to run, with which arguments, and what their output means.
use vstd::prelude::*;

use crate::text::{
    chars_of, has_prefix, split, split_chars, starts_with, string_of, suffix_from, texts, trim,
    trim_chars,
};
use crate::timestamp::{display_parts, empty_parts};
use crate::ui::State;

verus! {

broadcast use vstd::string::group_string_axioms;

/// The two programs of the ffmpeg suite that are used.
#[derive(Clone, Copy, Debug, PartialEq, Eq, Structural)]
pub enum Program {
    Ffmpeg,
    Ffprobe,
}

/// What the conversion worker is asked to do.
#[derive(Debug)]
pub enum ConversionInput {
    Start { state: State, output_file: String },
}

/// The file name of a program: with `.exe` on Windows.
pub open spec fn program_file_name_text(program: Program, windows: bool) -> Seq<char> {
    match (program, windows) {
        (Program::Ffmpeg, true) => "ffmpeg.exe"@,
        (Program::Ffmpeg, false) => "ffmpeg"@,
        (Program::Ffprobe, true) => "ffprobe.exe"@,
        (Program::Ffprobe, false) => "ffprobe"@,
    }
}

/// The file name of `program` on Windows (`windows`) or elsewhere.
pub fn program_file_name(program: Program, windows: bool) -> (name: &'static str)
    ensures
        name@ == program_file_name_text(program, windows),
{
    match (program, windows) {
        (Program::Ffmpeg, true) => "ffmpeg.exe",
        (Program::Ffmpeg, false) => "ffmpeg",
        (Program::Ffprobe, true) => "ffprobe.exe",
        (Program::Ffprobe, false) => "ffprobe",
    }
}

/// A place on the `PATH` where the program might be.
#[derive(Clone, Copy, Debug, PartialEq, Eq, Structural)]
pub struct PathCandidate {
    /// Whether the program file exists there.
    pub exists: bool,
    /// Whether it is the copy bundled beside this executable.
    pub is_bundled: bool,
}

/// Where the program to run was found.
#[derive(Clone, Copy, Debug, PartialEq, Eq, Structural)]
pub enum ProgramLocation {
    /// In the `PATH` directory of this index.
    InPath(usize),
    /// Beside this executable.
    Bundled,
    /// Nowhere.
    NotFound,
}

/// A `PATH` entry is used when the program exists there and it is not the
/// bundled copy.
pub open spec fn usable(c: PathCandidate) -> bool {
    c.exists && !c.is_bundled
}

/// A global installation found on the `PATH` wins, the first one in `PATH`
/// order; then the bundled copy; otherwise the program is not found.
pub open spec fn program_location(candidates: Seq<PathCandidate>, bundled_exists: bool) -> ProgramLocation {
    if exists|i: int| 0 <= i < candidates.len() && usable(#[trigger] candidates[i]) {
        let i = choose|i: int|
            0 <= i < candidates.len() && usable(#[trigger] candidates[i]) && forall|j: int|
                0 <= j < i ==> !usable(#[trigger] candidates[j]);
        ProgramLocation::InPath(i as usize)
    } else if bundled_exists {
        ProgramLocation::Bundled
    } else {
        ProgramLocation::NotFound
    }
}

/// Picks where to run the program from.
pub fn select_program_location(candidates: &Vec<PathCandidate>, bundled_exists: bool) -> (loc: ProgramLocation)
    ensures
        match loc {
            ProgramLocation::InPath(i) => i < candidates.len() && usable(candidates@[i as int])
                && forall|j: int| 0 <= j < i ==> !usable(#[trigger] candidates@[j]),
            ProgramLocation::Bundled => bundled_exists && forall|j: int|
                0 <= j < candidates.len() ==> !usable(#[trigger] candidates@[j]),
            ProgramLocation::NotFound => !bundled_exists && forall|j: int|
                0 <= j < candidates.len() ==> !usable(#[trigger] candidates@[j]),
        },
        loc == program_location(candidates@, bundled_exists),
{
    for i in 0..candidates.len()
        invariant
            forall|j: int| 0 <= j < i ==> !usable(#[trigger] candidates@[j]),
    {
        if candidates[i].exists && !candidates[i].is_bundled {
            proof {
                let k = choose|k: int|
                    0 <= k < candidates@.len() && usable(#[trigger] candidates@[k]) && forall|
                        j: int,
                    | 0 <= j < k ==> !usable(#[trigger] candidates@[j]);
                assert(usable(candidates@[i as int]));
                if k < i {
                    assert(!usable(candidates@[k]));
                }
                if k > i {
                    assert(!usable(candidates@[i as int]));
                }
            }
            return ProgramLocation::InPath(i);
        }
    }
    if bundled_exists {
        ProgramLocation::Bundled
    } else {
        ProgramLocation::NotFound
    }
}

/// The lines of a program's output.
pub open spec fn lines(out: Seq<char>) -> Seq<Seq<char>> {
    split(out, seq!['\n'])
}

/// ffprobe names the type of the first stream on its first line; the file
/// is a video when that line, trimmed, is `video`.
pub open spec fn is_video_text(out: Seq<char>) -> bool {
    trim(lines(out)[0]) == "video"@
}

/// Reads the answer of `ffprobe -show_entries stream=codec_type`.
pub fn is_video_output(output: &str) -> (b: bool)
    ensures
        b == is_video_text(output@),
{
    let out = chars_of(output);
    let seps = vec!['\n'];
    let ls = split_chars(&out, &seps);
    assert(seps@ == seq!['\n']);
    assert(ls@[0]@ == lines(output@)[0]);
    let first = trim_chars(&ls[0]);
    let video = chars_of("video");
    crate::text::chars_equal(&first, &video)
}

/// The third space-separated word of `ffmpeg -version`, if there is one.
pub open spec fn version_text(out: Seq<char>) -> Option<Seq<char>> {
    let words = split(out, seq![' ']);
    if words.len() > 2 {
        Some(words[2])
    } else {
        None
    }
}

/// Reads the version number from the output of `-version`.
pub fn version_from_output(output: &str) -> (v: Option<String>)
    ensures
        match v {
            Some(s) => version_text(output@) == Some(s@),
            None => version_text(output@) is None,
        },
{
    let out = chars_of(output);
    let seps = vec![' '];
    let words = split_chars(&out, &seps);
    assert(seps@ == seq![' ']);
    if words.len() > 2 {
        assert(words@[2]@ == split(output@, seq![' '])[2]);
        Some(string_of(&words[2]))
    } else {
        None
    }
}

/// The message for a failed ffprobe run on `path`.
pub open spec fn probe_failed_text(path: Seq<char>) -> Seq<char> {
    "ffprobe command failed, is the input file '"@ + path + "' valid?"@
}

/// The message for a duration that cannot be read for `path`.
pub open spec fn no_duration_text(path: Seq<char>) -> Seq<char> {
    "failed to get duration of video, is the input file '"@ + path + "' valid?"@
}

/// The duration of a video from `ffprobe -sexagesimal` output
/// (`H:MM:SS.micro`), as `MM:SS`: the second and third fields between `':'`
/// and `'.'`.
pub open spec fn video_length_text(succeeded: bool, out: Seq<char>, path: Seq<char>) -> Result<
    Seq<char>,
    Seq<char>,
> {
    let fields = split(out, seq![':', '.']);
    if !succeeded {
        Err(probe_failed_text(path))
    } else if fields.len() < 3 {
        Err(no_duration_text(path))
    } else {
        Ok(fields[1] + seq![':'] + fields[2])
    }
}

/// A message naming `path` between a prefix and a suffix.
fn path_message(prefix: &str, path: &str, suffix: &str) -> (m: String)
    ensures
        m@ == prefix@ + path@ + suffix@,
{
    let mut m = prefix.to_owned();
    m.append(path);
    m.append(suffix);
    m
}

/// Reads the duration of a video from the output of a ffprobe run on the
/// file shown as `path`; `succeeded` tells whether the run succeeded.
pub fn video_length_from_output(succeeded: bool, output: &str, path: &str) -> (r: Result<
    String,
    String,
>)
    ensures
        match r {
            Ok(s) => video_length_text(succeeded, output@, path@) == Ok::<Seq<char>, Seq<char>>(
                s@,
            ),
            Err(e) => video_length_text(succeeded, output@, path@) == Err::<Seq<char>, Seq<char>>(
                e@,
            ),
        },
{
    if !succeeded {
        return Err(path_message("ffprobe command failed, is the input file '", path, "' valid?"));
    }
    let out = chars_of(output);
    let seps = vec![':', '.'];
    let fields = split_chars(&out, &seps);
    assert(seps@ == seq![':', '.']);
    if fields.len() < 3 {
        return Err(
            path_message("failed to get duration of video, is the input file '", path, "' valid?"),
        );
    }
    let ghost f = split(output@, seq![':', '.']);
    assert(fields@[1]@ == f[1]);
    assert(fields@[2]@ == f[2]);
    let mut res = string_of(&fields[1]);
    proof {
        reveal_strlit(":");
    }
    res.append(":");
    assert(":"@ == seq![':']);
    crate::text::push_chars(&mut res, &fields[2]);
    Ok(res)
}

/// The frame rate fields of `ffprobe -show_entries stream=r_frame_rate`
/// output (`num/den`): the trimmed text before the first `'/'` and, if
/// there is one, the trimmed text after it up to the next `'/'`.
pub open spec fn frame_rate_text(succeeded: bool, out: Seq<char>, path: Seq<char>) -> Result<
    (Seq<char>, Option<Seq<char>>),
    Seq<char>,
> {
    let fields = split(out, seq!['/']);
    if !succeeded {
        Err(probe_failed_text(path))
    } else {
        Ok(
            (
                trim(fields[0]),
                if fields.len() > 1 {
                    Some(trim(fields[1]))
                } else {
                    None
                },
            ),
        )
    }
}

/// Splits the frame rate answer of a ffprobe run on the file shown as
/// `path` into numerator and denominator text.
pub fn frame_rate_fields(succeeded: bool, output: &str, path: &str) -> (r: Result<
    (String, Option<String>),
    String,
>)
    ensures
        match r {
            Ok((n, d)) => frame_rate_text(succeeded, output@, path@) == Ok::<
                (Seq<char>, Option<Seq<char>>),
                Seq<char>,
            >(
                (
                    n@,
                    match d {
                        Some(d) => Some(d@),
                        None => None,
                    },
                ),
            ),
            Err(e) => frame_rate_text(succeeded, output@, path@) == Err::<
                (Seq<char>, Option<Seq<char>>),
                Seq<char>,
            >(e@),
        },
{
    if !succeeded {
        return Err(path_message("ffprobe command failed, is the input file '", path, "' valid?"));
    }
    let out = chars_of(output);
    let seps = vec!['/'];
    let fields = split_chars(&out, &seps);
    assert(seps@ == seq!['/']);
    let ghost f = split(output@, seq!['/']);
    assert(fields@[0]@ == f[0]);
    let num = string_of(&trim_chars(&fields[0]));
    if fields.len() > 1 {
        assert(fields@[1]@ == f[1]);
        let den = string_of(&trim_chars(&fields[1]));
        Ok((num, Some(den)))
    } else {
        Ok((num, None))
    }
}

/// A line that ffmpeg writes to standard error and that reports an error.
pub open spec fn error_line_text(line: Seq<char>) -> Option<Seq<char>> {
    if starts_with(line, "Error"@) {
        Some(line)
    } else {
        None
    }
}

/// The progress that a line of `ffmpeg -progress` output reports: the
/// text after `out_time=`.
pub open spec fn progress_line_text(line: Seq<char>) -> Option<Seq<char>> {
    if starts_with(line, "out_time="@) {
        Some(line.skip(9))
    } else {
        None
    }
}

/// The error that a line of ffmpeg's standard error reports, if any.
pub fn error_line(line: &str) -> (r: Option<String>)
    ensures
        match r {
            Some(s) => error_line_text(line@) == Some(s@),
            None => error_line_text(line@) is None,
        },
{
    let l = chars_of(line);
    let p = chars_of("Error");
    if has_prefix(&l, &p) {
        Some(string_of(&l))
    } else {
        None
    }
}

/// The progress that a line of ffmpeg's standard output reports, if any.
pub fn progress_line(line: &str) -> (r: Option<String>)
    ensures
        match r {
            Some(s) => progress_line_text(line@) == Some(s@),
            None => progress_line_text(line@) is None,
        },
{
    let l = chars_of(line);
    let p = chars_of("out_time=");
    proof {
        reveal_strlit("out_time=");
    }
    if has_prefix(&l, &p) {
        Some(string_of(&suffix_from(&l, 9)))
    } else {
        None
    }
}

/// The texts of a vector of strings.
pub open spec fn string_texts(v: Seq<String>) -> Seq<Seq<char>> {
    v.map_values(|s: String| s@)
}

/// The ffmpeg arguments that cut and compress `file` into `output`:
/// progress to standard output, the cut when both time stamps are given,
/// 720p when asked for, no audio when muting is asked for, H.265 at the
/// chosen frame rate, at most 8 MB, and overwriting the output.
pub open spec fn conversion_args(
    file: Seq<char>,
    from: crate::timestamp::TimeParts,
    to: crate::timestamp::TimeParts,
    lower_720p: bool,
    mute_audio: bool,
    fps: Seq<char>,
    output: Seq<char>,
) -> Seq<Seq<char>> {
    seq!["-i"@, file, "-progress"@, "pipe:1"@] + (if from != empty_parts() && to != empty_parts() {
        seq!["-ss"@, display_parts(from), "-to"@, display_parts(to)]
    } else {
        Seq::<Seq<char>>::empty()
    }) + (if lower_720p {
        seq!["-vf"@, "scale=-1:720"@]
    } else {
        Seq::<Seq<char>>::empty()
    }) + (if mute_audio {
        seq!["-an"@]
    } else {
        Seq::<Seq<char>>::empty()
    }) + seq!["-vcodec"@, "libx265"@, "-r"@, fps, "-fs"@, "8M"@, "-y"@, output]
}

/// Muting the audio adds one argument, `-an`, just before the codec is
/// chosen; every other argument stays as it is.
pub proof fn lemma_mute_adds_one_argument(
    file: Seq<char>,
    from: crate::timestamp::TimeParts,
    to: crate::timestamp::TimeParts,
    lower_720p: bool,
    fps: Seq<char>,
    output: Seq<char>,
)
    ensures
        ({
            let muted = conversion_args(file, from, to, lower_720p, true, fps, output);
            let kept = conversion_args(file, from, to, lower_720p, false, fps, output);
            let k = kept.len() - 8;
            &&& muted == kept.take(k) + seq!["-an"@] + kept.skip(k)
            &&& muted[k] == "-an"@
            &&& kept[k] == "-vcodec"@
        }),
{
    let muted = conversion_args(file, from, to, lower_720p, true, fps, output);
    let kept = conversion_args(file, from, to, lower_720p, false, fps, output);
    let k = kept.len() - 8;
    assert(muted =~= kept.take(k) + seq!["-an"@] + kept.skip(k));
}

/// The arguments for the ffmpeg run that converts the state's input file
/// into `output`.
pub fn conversion_arguments(state: &State, output: &str) -> (args: Vec<String>)
    ensures
        string_texts(args@) == conversion_args(
            state.file@,
            state.from@,
            state.to@,
            state.lower_720p,
            state.mute_audio,
            state.fps@,
            output@,
        ),
{
    let mut args: Vec<String> = Vec::new();
    args.push("-i".to_owned());
    args.push(state.file.clone());
    args.push("-progress".to_owned());
    args.push("pipe:1".to_owned());
    if !state.from.is_empty() && !state.to.is_empty() {
        args.push("-ss".to_owned());
        args.push(state.from.to_string());
        args.push("-to".to_owned());
        args.push(state.to.to_string());
    }
    if state.lower_720p {
        args.push("-vf".to_owned());
        args.push("scale=-1:720".to_owned());
    }
    if state.mute_audio {
        args.push("-an".to_owned());
    }
    args.push("-vcodec".to_owned());
    args.push("libx265".to_owned());
    args.push("-r".to_owned());
    args.push(state.fps.clone());
    args.push("-fs".to_owned());
    args.push("8M".to_owned());
    args.push("-y".to_owned());
    args.push(output.to_owned());
    assert(string_texts(args@) =~= conversion_args(
        state.file@,
        state.from@,
        state.to@,
        state.lower_720p,
        state.mute_audio,
        state.fps@,
        output@,
    ));
    args
}

} // verus!
