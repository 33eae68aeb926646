//! Cutting a video and compressing it with ffmpeg: the time stamps, the
//! checks on what the user entered, the ffmpeg arguments, the reading of
//! ffprobe's answers, and the editor's state machine.
use vstd::prelude::*;

pub mod decimal;
pub mod ffmpeg;
pub mod text;
pub mod timestamp;
pub mod ui;
pub mod worker;

verus! {

} // verus!
