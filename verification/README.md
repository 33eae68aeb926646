# icecutter

A small front end for ffmpeg that cuts a video and compresses it to at most
about 8 MB, for quick uploads.

The crate is a Verus library (`src/`) with a thin GUI program around it
(`app/`).

- `src/text.rs` – trimming, splitting and decimal numerals over characters.
- `src/decimal.rs` – exact values of decimal numbers with a point and an
  exponent, and how such a value rounds once it is read as an `f32`.
- `src/timestamp.rs` – `HH:MM:SS` / `MM:SS` / `SS` time stamps: reading,
  writing, total seconds; reading what is written gives the same time stamp.
- `src/ffmpeg.rs` – which ffmpeg/ffprobe to run, the conversion arguments,
  and how ffprobe's and ffmpeg's output is read.
- `src/ui/` – the editor's state machine: `State::update` answers an
  `Action` with an `Effect` (a dialog, an ffprobe run, a conversion start,
  an error message); `validation` holds the checks on what the user entered.
- `src/worker.rs` – the conversion worker's decisions: start ffmpeg on a
  request, pass its reports on, and say once that the conversion is done.
- `app/` – the iced window, the rfd dialogs, the arboard clipboard and the
  ffmpeg processes; it carries out the effects and feeds the answers back.

Seconds are whole numbers in the library. A typed seconds value is read as
an `f32` would read it (`12.5`, `1e1`, `inf`, `nan`) and rounded half away
from zero; values that round outside 0 to 59, and `nan`, are refused. The
rounding is decided exactly from the decimal text: the value is measured in
steps of 2^-26, where every point at which the rounded `f32` changes lies.

The conversion progress is ffmpeg's `out_time` in whole seconds, its
seconds read as an `f32` and rounded as a typed seconds value is (59.5 and
above carry into the next minute);
reports that are no time (`N/A`, the negative time before the first frame)
leave it as it was, so it never moves back while ffmpeg moves on.
