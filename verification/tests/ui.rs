use icecutter::ffmpeg::{conversion_arguments, ConversionInput};
use icecutter::timestamp::Timestamp;
use icecutter::ui::conversion::{self, read_out_time, Conversion, ConversionState};
use icecutter::ui::dialog::{self, Dialog};
use icecutter::ui::validation::{validate_state, validate_timestamp};
use icecutter::ui::{Action, Effect, State, StateUpdate};

fn ts(s: &str) -> Timestamp {
    Timestamp::new(s).unwrap()
}

fn error_text(e: Effect) -> String {
    match e {
        Effect::ShowError(m) => m,
        other => panic!("expected an error, got {:?}", other),
    }
}

fn ready_state() -> State {
    let mut s = State::default();
    let e = s.update(Action::Conversion(Conversion::Ready));
    assert!(matches!(e, Effect::Nothing));
    s
}

#[test]
fn fresh_state() {
    let s = State::default();
    assert!(s.from.is_empty() && s.to.is_empty());
    assert_eq!(s.from_str, "");
    assert_eq!(s.file, "");
    assert!(s.lower_720p && s.copy_clipboard);
    assert!(!s.conversion.converting && !s.conversion.channel_ready);
    assert_eq!(s.conversion.progress, 0);
}

#[test]
fn state_from_probe() {
    let s = State::new("v.mp4", true, Ok("01:30".to_string()), Ok("30".to_string()), true).unwrap();
    assert_eq!(s.from_str, "00:00");
    assert_eq!(s.from.to_string(), "00:00");
    assert_eq!(s.to_str, "01:30");
    assert_eq!(s.to.total_secs(), 90);
    assert_eq!(s.file, "v.mp4");
    assert_eq!(s.fps, "30");
    assert!(s.lower_720p && s.copy_clipboard && !s.conversion.converting);
}

#[test]
fn state_from_probe_errors() {
    let e = State::new("v", true, Err("boom".to_string()), Err("x".to_string()), false).unwrap_err();
    assert_eq!(e, "failed to get video length: boom");
    let e = State::new("v", true, Ok("01:30".to_string()), Err("bad fps".to_string()), true).unwrap_err();
    assert_eq!(e, "failed to get video fps: bad fps");
    let e = State::new("v", true, Ok("01:30".to_string()), Ok("30".to_string()), false).unwrap_err();
    assert_eq!(e, "input file does not contain a valid video stream");
    let e = State::new("v", true, Ok("99:30".to_string()), Ok("30".to_string()), true).unwrap_err();
    assert_eq!(e, "failed to get video length: a minute cannot be longer than 59 seconds");
    let e = State::new("gone.mp4", false, Err("boom".to_string()), Ok("30".to_string()), true)
        .unwrap_err();
    assert_eq!(e, "file \"gone.mp4\" does not exist");
    let e = State::new("gone.mp4", false, Ok("01:30".to_string()), Ok("30".to_string()), true)
        .unwrap_err();
    assert_eq!(e, "file \"gone.mp4\" does not exist");
}

#[test]
fn typed_time_stamps() {
    let mut s = State::default();
    let e = s.update(Action::StateUpdate(StateUpdate::From(" 0:05".to_string())));
    assert!(matches!(e, Effect::Nothing));
    assert_eq!(s.from_str, " 0:05");
    assert_eq!(s.from.total_secs(), 5);
    // text that does not read as a time stamp changes nothing
    s.update(Action::StateUpdate(StateUpdate::From("0:5x".to_string())));
    assert_eq!(s.from_str, " 0:05");
    assert_eq!(s.from.total_secs(), 5);
    s.update(Action::StateUpdate(StateUpdate::To("1:00".to_string())));
    assert_eq!(s.to.total_secs(), 60);
    assert_eq!(s.to_str, "1:00");
    // the time stamps always agree with their texts
    assert_eq!(Timestamp::new(&s.from_str).unwrap().total_secs(), s.from.total_secs());
    assert_eq!(Timestamp::new(&s.to_str).unwrap().total_secs(), s.to.total_secs());
}

#[test]
fn other_fields() {
    let mut s = State::default();
    s.update(Action::StateUpdate(StateUpdate::File("a.mp4".to_string())));
    s.update(Action::StateUpdate(StateUpdate::Fps("60".to_string())));
    assert!(!s.mute_audio);
    s.update(Action::StateUpdate(StateUpdate::MuteAudio(true)));
    assert!(s.mute_audio);
    s.update(Action::StateUpdate(StateUpdate::Lower720p(false)));
    s.update(Action::StateUpdate(StateUpdate::CopyClipboard(false)));
    assert_eq!(s.file, "a.mp4");
    assert_eq!(s.fps, "60");
    assert!(!s.lower_720p && !s.copy_clipboard);
    assert!(matches!(s.update(Action::Nothing), Effect::Nothing));
}

#[test]
fn new_state_keeps_the_conversion() {
    let mut s = ready_state();
    let other = State::new("b.mp4", true, Ok("00:10".to_string()), Ok("25".to_string()), true).unwrap();
    s.update(Action::StateUpdate(StateUpdate::New(other)));
    assert_eq!(s.file, "b.mp4");
    assert!(s.conversion.channel_ready);
}

#[test]
fn conversion_lifecycle() {
    let mut s = ready_state();
    s.update(Action::StateUpdate(StateUpdate::From("0:10".to_string())));
    s.update(Action::StateUpdate(StateUpdate::To("0:50".to_string())));
    let snapshot = s.clone();
    let e = s.update(Action::Conversion(Conversion::Start(snapshot, "out.mp4".to_string())));
    match e {
        Effect::StartConversion(ConversionInput::Start { state, output_file }) => {
            assert_eq!(output_file, "out.mp4");
            assert_eq!(state.from_str, "0:10");
        }
        other => panic!("{:?}", other),
    }
    assert!(s.conversion.converting);
    assert!(s.conversion.copy_clipboard);
    assert_eq!(s.conversion.to.total_secs(), 50);

    s.update(Action::Conversion(Conversion::Progress("N/A".to_string())));
    assert_eq!(s.conversion.progress, 0);
    s.update(Action::Conversion(Conversion::Progress("00:00:20.500000".to_string())));
    assert_eq!(s.conversion.progress, 21);
    assert_eq!(s.conversion.progress_span(), Some(40));
    assert_eq!(s.conversion.progress_percentage(), Some(52));
    s.update(Action::Conversion(Conversion::Progress("-577014:32:22.775808".to_string())));
    assert_eq!(s.conversion.progress, 21);
    s.update(Action::Conversion(Conversion::Progress("00:00:39.400000".to_string())));
    assert_eq!(s.conversion.progress, 39);

    let e = s.update(Action::Conversion(Conversion::Finished("out.mp4".to_string())));
    match e {
        Effect::CopyToClipboard(p) => assert_eq!(p, "out.mp4"),
        other => panic!("{:?}", other),
    }
    assert!(!s.conversion.converting);
    assert!(s.conversion.channel_ready);
    assert!(!s.conversion.copy_clipboard);
    assert_eq!(s.conversion.progress_percentage(), None);
}

#[test]
fn finishing_without_clipboard() {
    let mut c = ConversionState::default();
    c.channel_ready = true;
    let e = conversion::update(&mut c, Conversion::Finished("o".to_string()));
    assert!(matches!(e, Effect::Nothing));
    assert!(c.channel_ready);
}

#[test]
fn conversion_errors() {
    let mut s = State::default();
    let e = s.update(Action::Conversion(Conversion::Error("Error while decoding".to_string())));
    assert_eq!(error_text(e), "ffmpeg conversion error: Error while decoding");
}

#[test]
fn select_dialog() {
    let s = State::default();
    assert!(matches!(dialog::update(&s, Dialog::Select), Effect::PickInputFile));
    assert!(matches!(dialog::update(&s, Dialog::SelectFinished(None)), Effect::Nothing));
    match dialog::update(&s, Dialog::SelectFinished(Some("/v/a.mp4".to_string()))) {
        Effect::InspectSelection(p) => assert_eq!(p, "/v/a.mp4"),
        other => panic!("{:?}", other),
    }
    let e = dialog::update(&s, Dialog::SelectInspected(Err("nope".to_string())));
    assert_eq!(error_text(e), "failed to initialize state: nope");
    let st = State::new("a.mp4", true, Ok("00:10".to_string()), Ok("25".to_string()), true).unwrap();
    match dialog::update(&s, Dialog::SelectInspected(Ok(st))) {
        Effect::Dispatch(Action::StateUpdate(StateUpdate::New(n))) => assert_eq!(n.file, "a.mp4"),
        other => panic!("{:?}", other),
    }
}

#[test]
fn convert_dialog() {
    let mut s = State::default();
    s.file = "/v/a.mp4".to_string();
    s.to = ts("1:00");
    match dialog::update(&s, Dialog::Convert) {
        Effect::InspectInput(p) => assert_eq!(p, "/v/a.mp4"),
        other => panic!("{:?}", other),
    }
    let e = dialog::update(&s, Dialog::ConvertInspected(Err("bad".to_string()), None));
    assert_eq!(error_text(e), "invalid input file: bad");
    let e = dialog::update(&s, Dialog::ConvertInspected(Ok(ts("0:59")), Some("a.mp4".to_string())));
    assert_eq!(error_text(e), "'to' timestamp is longer than the video's duration");
    let e = dialog::update(&s, Dialog::ConvertInspected(Ok(ts("1:00")), None));
    assert_eq!(error_text(e), "invalid input file, failed to get file name from path");
    match dialog::update(&s, Dialog::ConvertInspected(Ok(ts("1:00")), Some("a.mp4".to_string()))) {
        Effect::PickOutputFile(n) => assert_eq!(n, "[converted] a.mp4"),
        other => panic!("{:?}", other),
    }
    assert!(matches!(dialog::update(&s, Dialog::ConvertFinished(None)), Effect::Nothing));
    match dialog::update(&s, Dialog::ConvertFinished(Some("/o.mp4".to_string()))) {
        Effect::Dispatch(Action::Conversion(Conversion::Start(st, out))) => {
            assert_eq!(out, "/o.mp4");
            assert_eq!(st.file, "/v/a.mp4");
        }
        other => panic!("{:?}", other),
    }
    // dialog actions leave the state alone
    let before = s.clone();
    s.update(Action::Dialog(Dialog::Convert));
    assert_eq!(s.file, before.file);
}

#[test]
fn validation_of_a_fresh_state() {
    let s = State::default();
    assert_eq!(
        validate_state(&s, false),
        vec![
            "the 'from' and 'to' timestamps cannot be the same".to_string(),
            "input file does not exist".to_string(),
            "'fps' field is not a valid unsigned integer".to_string(),
        ]
    );
    assert!(!s.can_convert(false));
}

#[test]
fn validation_of_each_check() {
    let mut s = State::default();
    s.fps = "30".to_string();
    s.from = ts("0:10");
    assert_eq!(
        validate_state(&s, true),
        vec![
            "'to' timestamp is empty, while the 'from' timestamp is not".to_string(),
            "'from' timestamp is longer than the 'to' timestamp".to_string(),
        ]
    );
    s.from = Timestamp::default();
    s.to = ts("0:00");
    assert_eq!(
        validate_state(&s, true),
        vec![
            "'from' timestamp is empty, while the 'to' timestamp is not".to_string(),
            "'to' timestamp can't be 0".to_string(),
            "the 'from' and 'to' timestamps cannot be the same".to_string(),
        ]
    );
    s.from = ts("0:10");
    s.to = ts("0:20");
    s.fps = "-1".to_string();
    assert_eq!(
        validate_state(&s, true),
        vec!["'fps' field is not a valid unsigned integer".to_string()]
    );
    s.fps = "30".to_string();
    assert!(validate_state(&s, true).is_empty());
    assert!(s.can_convert(true));
    s.conversion.converting = true;
    assert!(!s.can_convert(true));
}

#[test]
fn a_checked_cut_reaches_ffmpeg() {
    let mut s = State::default();
    s.file = "a.mp4".to_string();
    s.fps = "30".to_string();
    s.from = ts("0:0:05");
    s.to = ts("1:02:03");
    assert!(validate_state(&s, true).is_empty());
    let args = conversion_arguments(&s, "o.mp4");
    assert_eq!(args[4], "-ss");
    assert_eq!(Timestamp::new(&args[5]).unwrap().total_secs(), s.from.total_secs());
    assert_eq!(args[6], "-to");
    assert_eq!(Timestamp::new(&args[7]).unwrap().total_secs(), s.to.total_secs());
}

#[test]
fn strict_minutes_seconds_check() {
    assert!(validate_timestamp(""));
    assert!(validate_timestamp("1:05"));
    assert!(validate_timestamp("59:59"));
    assert!(!validate_timestamp("60:00"));
    assert!(!validate_timestamp("5"));
    assert!(!validate_timestamp("1:2:3"));
    assert!(!validate_timestamp(" 1:05"));
    assert!(validate_timestamp("+1:05"));
}

#[test]
fn out_time_seconds_are_read_as_f32_and_rounded() {
    assert_eq!(read_out_time("00:00:59.400000"), Some(59));
    assert_eq!(read_out_time("00:00:59.600000"), Some(60));
    assert_eq!(read_out_time("00:00:59.500000"), Some(60));
    // read as an f32, 58.499999 is 58.5, which rounds up
    assert_eq!(read_out_time("00:00:58.499999"), Some(59));
    assert_eq!(read_out_time("00:00:58.4999"), Some(58));
    assert_eq!(read_out_time("00:00:00.4999999"), Some(0));
    assert_eq!(read_out_time("00:00:00.49999999"), Some(1));
    assert_eq!(read_out_time("00:00:60"), None);
    assert_eq!(read_out_time("00:00:+5"), None);
    assert_eq!(read_out_time("00:00:.5"), None);
    assert_eq!(read_out_time("01:02:03"), Some(3723));
    assert_eq!(read_out_time("0:0:7.49"), Some(7));
    assert_eq!(read_out_time("0:0:7."), Some(7));
    assert_eq!(read_out_time("N/A"), None);
    assert_eq!(read_out_time("-577014:32:22.775808"), None);
    assert_eq!(read_out_time("00:59.6"), None);
    assert_eq!(read_out_time("00:00:5x"), None);
    assert_eq!(read_out_time("00:00:5.1.2"), None);
    assert_eq!(read_out_time("00:00:5.-1"), None);
}

#[test]
fn progress_never_goes_back() {
    let mut c = ConversionState::default();
    let mut last = 0;
    for p in [
        "-577014:32:22.775808",
        "N/A",
        "00:00:58.900000",
        "00:00:59.400000",
        "00:00:59.600000",
        "N/A",
        "00:01:00.000000",
        "00:01:00.700000",
    ] {
        conversion::update(&mut c, Conversion::Progress(p.to_string()));
        assert!(c.progress >= last, "{} went back", p);
        last = c.progress;
    }
    assert_eq!(c.progress, 61);
}
