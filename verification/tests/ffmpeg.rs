use icecutter::ffmpeg::{
    conversion_arguments, error_line, frame_rate_fields, is_video_output, program_file_name,
    progress_line, select_program_location, version_from_output, video_length_from_output,
    PathCandidate, Program, ProgramLocation,
};
use icecutter::timestamp::Timestamp;
use icecutter::ui::State;

#[test]
fn program_names() {
    assert_eq!(program_file_name(Program::Ffmpeg, true), "ffmpeg.exe");
    assert_eq!(program_file_name(Program::Ffmpeg, false), "ffmpeg");
    assert_eq!(program_file_name(Program::Ffprobe, true), "ffprobe.exe");
    assert_eq!(program_file_name(Program::Ffprobe, false), "ffprobe");
}

fn cand(exists: bool, is_bundled: bool) -> PathCandidate {
    PathCandidate { exists, is_bundled }
}

#[test]
fn program_locations() {
    let c = vec![cand(false, false), cand(true, true), cand(true, false), cand(true, false)];
    assert_eq!(select_program_location(&c, true), ProgramLocation::InPath(2));
    let c = vec![cand(false, false), cand(true, true)];
    assert_eq!(select_program_location(&c, true), ProgramLocation::Bundled);
    assert_eq!(select_program_location(&c, false), ProgramLocation::NotFound);
    assert_eq!(select_program_location(&vec![], false), ProgramLocation::NotFound);
}

#[test]
fn video_streams() {
    assert!(is_video_output("video\naudio\n"));
    assert!(is_video_output(" video \n"));
    assert!(!is_video_output("audio\nvideo\n"));
    assert!(!is_video_output(""));
    assert!(!is_video_output("videos"));
}

#[test]
fn versions() {
    assert_eq!(
        version_from_output("ffmpeg version 7.1.1 Copyright (c) 2000-2025").as_deref(),
        Some("7.1.1")
    );
    assert_eq!(version_from_output("ffmpeg version"), None);
}

#[test]
fn video_lengths() {
    assert_eq!(video_length_from_output(true, "0:01:23.456000\n", "a.mp4"), Ok("01:23".to_string()));
    assert_eq!(
        video_length_from_output(true, "N/A\n", "a.mp4"),
        Err("failed to get duration of video, is the input file 'a.mp4' valid?".to_string())
    );
    assert_eq!(
        video_length_from_output(false, "0:01:23.4", "a.mp4"),
        Err("ffprobe command failed, is the input file 'a.mp4' valid?".to_string())
    );
}

#[test]
fn frame_rates() {
    assert_eq!(
        frame_rate_fields(true, "30000/1001\n", "v.mkv"),
        Ok(("30000".to_string(), Some("1001".to_string())))
    );
    assert_eq!(frame_rate_fields(true, " 25 \n", "v.mkv"), Ok(("25".to_string(), None)));
    assert_eq!(
        frame_rate_fields(false, "", "v.mkv"),
        Err("ffprobe command failed, is the input file 'v.mkv' valid?".to_string())
    );
}

#[test]
fn output_lines() {
    assert_eq!(error_line("Error opening input file").as_deref(), Some("Error opening input file"));
    assert_eq!(error_line("frame= 10 fps=0.0"), None);
    assert_eq!(progress_line("out_time=00:00:05.120000").as_deref(), Some("00:00:05.120000"));
    assert_eq!(progress_line("out_time_ms=5120000"), None);
    assert_eq!(progress_line("out_time="), Some(String::new()));
}

fn strs(v: &[&str]) -> Vec<String> {
    v.iter().map(|s| s.to_string()).collect()
}

#[test]
fn arguments_with_cut_and_720p() {
    let mut state = State::default();
    state.file = "in.mp4".to_string();
    state.fps = "30".to_string();
    state.from = Timestamp::new("0:10").unwrap();
    state.to = Timestamp::new("1:02:03").unwrap();
    assert_eq!(
        conversion_arguments(&state, "out.mp4"),
        strs(&[
            "-i", "in.mp4", "-progress", "pipe:1", "-ss", "00:10", "-to", "1:02:03", "-vf",
            "scale=-1:720", "-vcodec", "libx265", "-r", "30", "-fs", "8M", "-y", "out.mp4"
        ])
    );
}

#[test]
fn arguments_without_cut() {
    let mut state = State::default();
    state.file = "in.mp4".to_string();
    state.fps = "24".to_string();
    state.lower_720p = false;
    state.to = Timestamp::new("0:30").unwrap();
    assert_eq!(
        conversion_arguments(&state, "o.mp4"),
        strs(&[
            "-i", "in.mp4", "-progress", "pipe:1", "-vcodec", "libx265", "-r", "24", "-fs", "8M",
            "-y", "o.mp4"
        ])
    );
}

#[test]
fn arguments_with_muted_audio() {
    let mut state = State::default();
    state.file = "in.mp4".to_string();
    state.fps = "24".to_string();
    state.mute_audio = true;
    assert_eq!(
        conversion_arguments(&state, "o.mp4"),
        strs(&[
            "-i", "in.mp4", "-progress", "pipe:1", "-vf", "scale=-1:720", "-an", "-vcodec",
            "libx265", "-r", "24", "-fs", "8M", "-y", "o.mp4"
        ])
    );
    state.lower_720p = false;
    state.from = Timestamp::new("5").unwrap();
    state.to = Timestamp::new("1:00").unwrap();
    assert_eq!(
        conversion_arguments(&state, "o.mp4"),
        strs(&[
            "-i", "in.mp4", "-progress", "pipe:1", "-ss", "05", "-to", "01:00", "-an",
            "-vcodec", "libx265", "-r", "24", "-fs", "8M", "-y", "o.mp4"
        ])
    );
}
