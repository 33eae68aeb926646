use icecutter::ffmpeg::{conversion_arguments, ConversionInput};
use icecutter::ui::conversion::Conversion;
use icecutter::ui::State;
use icecutter::worker::{worker_step, WorkerAction, WorkerEvent, WorkerState};

fn request() -> (State, WorkerEvent) {
    let mut state = State::default();
    state.file = "in.mp4".to_string();
    state.fps = "30".to_string();
    let event = WorkerEvent::Request(ConversionInput::Start {
        state: state.clone(),
        output_file: "out.mp4".to_string(),
    });
    (state, event)
}

fn told(action: WorkerAction) -> Conversion {
    match action {
        WorkerAction::Tell(c) => c,
        other => panic!("expected a report, got {:?}", other),
    }
}

#[test]
fn a_run_reports_and_finishes_once() {
    let (state, event) = request();
    let (w, action) = worker_step(WorkerState::Waiting, event);
    match action {
        WorkerAction::Spawn(args) => assert_eq!(args, conversion_arguments(&state, "out.mp4")),
        other => panic!("{:?}", other),
    }
    assert!(matches!(&w, WorkerState::Starting(f) if f == "out.mp4"));
    let (w, action) = worker_step(w, WorkerEvent::Spawned { stdout: true, stderr: true });
    assert!(matches!(action, WorkerAction::Wait));
    assert!(matches!(&w, WorkerState::Running(f) if f == "out.mp4"));
    let (w, action) = worker_step(w, WorkerEvent::Report(Ok("00:00:01.000000".to_string())));
    assert!(matches!(told(action), Conversion::Progress(p) if p == "00:00:01.000000"));
    let (w, action) = worker_step(w, WorkerEvent::Report(Err("bad frame".to_string())));
    assert!(matches!(told(action), Conversion::Error(e) if e == "bad frame"));
    let (w, action) = worker_step(w, WorkerEvent::ReportsEnded);
    assert!(matches!(told(action), Conversion::Finished(f) if f == "out.mp4"));
    assert!(matches!(w, WorkerState::Waiting));
    // a second end reports nothing more
    let (w, action) = worker_step(w, WorkerEvent::ReportsEnded);
    assert!(matches!(action, WorkerAction::Wait));
    assert!(matches!(w, WorkerState::Waiting));
}

#[test]
fn failed_starts_report_one_error() {
    let (_, event) = request();
    let (w, _) = worker_step(WorkerState::Waiting, event);
    let (w, action) = worker_step(w, WorkerEvent::SpawnFailed("no such file".to_string()));
    assert!(
        matches!(told(action), Conversion::Error(e) if e == "failed to start ffmpeg process: no such file")
    );
    assert!(matches!(w, WorkerState::Waiting));

    let (_, event) = request();
    let (w, _) = worker_step(WorkerState::Waiting, event);
    let (w, action) = worker_step(w, WorkerEvent::Spawned { stdout: false, stderr: false });
    assert!(matches!(told(action), Conversion::Error(e)
        if e == "failed to capture standard output of ffmpeg process"));
    assert!(matches!(w, WorkerState::Waiting));

    let (_, event) = request();
    let (w, _) = worker_step(WorkerState::Waiting, event);
    let (w, action) = worker_step(w, WorkerEvent::Spawned { stdout: true, stderr: false });
    assert!(matches!(told(action), Conversion::Error(e)
        if e == "failed to capture standard error output of ffmpeg process"));
    assert!(matches!(w, WorkerState::Waiting));
}

#[test]
fn events_out_of_place_change_nothing() {
    let (w, action) = worker_step(WorkerState::Waiting, WorkerEvent::Report(Ok("1".to_string())));
    assert!(matches!(action, WorkerAction::Wait));
    assert!(matches!(w, WorkerState::Waiting));
    let (_, event) = request();
    let (w, action) = worker_step(WorkerState::Running("a.mp4".to_string()), event);
    assert!(matches!(action, WorkerAction::Wait));
    assert!(matches!(&w, WorkerState::Running(f) if f == "a.mp4"));
}
