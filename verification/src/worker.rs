//! The decisions of the conversion worker: it waits for a request, starts
//! ffmpeg, passes on what ffmpeg reports, and says when the conversion is
//! done. Starting ffmpeg and reading its output happen outside; what they
//! give comes back here as events.
use vstd::prelude::*;

use crate::ffmpeg::{ConversionInput, conversion_args, conversion_arguments, string_texts};
use crate::ui::conversion::Conversion;
use crate::ui::joined;

verus! {

broadcast use vstd::string::group_string_axioms;

/// Where the worker stands, with the output file of the conversion it
/// handles.
#[derive(Debug)]
pub enum WorkerState {
    /// Waiting for a request.
    Waiting,
    /// ffmpeg is being started.
    Starting(String),
    /// ffmpeg runs, and its reports are being passed on.
    Running(String),
}

/// What happens to the worker.
#[derive(Debug)]
pub enum WorkerEvent {
    /// A request to convert has come.
    Request(ConversionInput),
    /// ffmpeg could not be started, for this reason.
    SpawnFailed(String),
    /// ffmpeg has started; whether its standard output and its standard
    /// error could be captured.
    Spawned { stdout: bool, stderr: bool },
    /// A report read from ffmpeg's output: progress (`Ok`) or an error
    /// (`Err`).
    Report(Result<String, String>),
    /// ffmpeg's output has ended.
    ReportsEnded,
}

/// What the worker does next.
#[derive(Debug)]
pub enum WorkerAction {
    /// Wait for the next event.
    Wait,
    /// Start ffmpeg with these arguments.
    Spawn(Vec<String>),
    /// Tell the editor.
    Tell(Conversion),
}

/// The action is to tell the editor of an error with this message.
pub open spec fn tells_error(action: WorkerAction, message: Seq<char>) -> bool {
    action matches WorkerAction::Tell(Conversion::Error(m)) && m@ == message
}

/// What the worker becomes, and does, on an event. An event that does not
/// fit where the worker stands changes nothing.
pub open spec fn after_worker_event(
    old: WorkerState,
    event: WorkerEvent,
    new: WorkerState,
    action: WorkerAction,
) -> bool {
    match (old, event) {
        (WorkerState::Waiting, WorkerEvent::Request(ConversionInput::Start { state, output_file })) => {
            &&& new == WorkerState::Starting(output_file)
            &&& action matches WorkerAction::Spawn(args) && string_texts(args@) == conversion_args(
                state.file@,
                state.from@,
                state.to@,
                state.lower_720p,
                state.mute_audio,
                state.fps@,
                output_file@,
            )
        },
        (WorkerState::Starting(_), WorkerEvent::SpawnFailed(e)) => {
            &&& new is Waiting
            &&& tells_error(action, "failed to start ffmpeg process: "@ + e@)
        },
        (WorkerState::Starting(f), WorkerEvent::Spawned { stdout, stderr }) => if !stdout {
            &&& new is Waiting
            &&& tells_error(action, "failed to capture standard output of ffmpeg process"@)
        } else if !stderr {
            &&& new is Waiting
            &&& tells_error(action, "failed to capture standard error output of ffmpeg process"@)
        } else {
            &&& new == WorkerState::Running(f)
            &&& action is Wait
        },
        (WorkerState::Running(f), WorkerEvent::Report(Ok(p))) => {
            &&& new == WorkerState::Running(f)
            &&& action == WorkerAction::Tell(Conversion::Progress(p))
        },
        (WorkerState::Running(f), WorkerEvent::Report(Err(e))) => {
            &&& new == WorkerState::Running(f)
            &&& action == WorkerAction::Tell(Conversion::Error(e))
        },
        (WorkerState::Running(f), WorkerEvent::ReportsEnded) => {
            &&& new is Waiting
            &&& action == WorkerAction::Tell(Conversion::Finished(f))
        },
        (old, _) => new == old && action is Wait,
    }
}

/// Answers an event of the worker.
pub fn worker_step(state: WorkerState, event: WorkerEvent) -> (r: (WorkerState, WorkerAction))
    ensures
        after_worker_event(state, event, r.0, r.1),
{
    match (state, event) {
        (WorkerState::Waiting, WorkerEvent::Request(ConversionInput::Start { state, output_file })) => {
            let args = conversion_arguments(&state, output_file.as_str());
            (WorkerState::Starting(output_file), WorkerAction::Spawn(args))
        },
        (WorkerState::Starting(_), WorkerEvent::SpawnFailed(e)) => {
            let m = joined("failed to start ffmpeg process: ", e.as_str());
            (WorkerState::Waiting, WorkerAction::Tell(Conversion::Error(m)))
        },
        (WorkerState::Starting(f), WorkerEvent::Spawned { stdout, stderr }) => {
            if !stdout {
                let m = "failed to capture standard output of ffmpeg process".to_owned();
                (WorkerState::Waiting, WorkerAction::Tell(Conversion::Error(m)))
            } else if !stderr {
                let m = "failed to capture standard error output of ffmpeg process".to_owned();
                (WorkerState::Waiting, WorkerAction::Tell(Conversion::Error(m)))
            } else {
                (WorkerState::Running(f), WorkerAction::Wait)
            }
        },
        (WorkerState::Running(f), WorkerEvent::Report(Ok(p))) => {
            (WorkerState::Running(f), WorkerAction::Tell(Conversion::Progress(p)))
        },
        (WorkerState::Running(f), WorkerEvent::Report(Err(e))) => {
            (WorkerState::Running(f), WorkerAction::Tell(Conversion::Error(e)))
        },
        (WorkerState::Running(f), WorkerEvent::ReportsEnded) => {
            (WorkerState::Waiting, WorkerAction::Tell(Conversion::Finished(f)))
        },
        (old, _) => (old, WorkerAction::Wait),
    }
}

/// One conversion, one `Finished`: the worker tells the editor that a
/// conversion has finished exactly when ffmpeg's output ends while that
/// conversion runs, names its output file, and then waits for the next
/// request.
pub proof fn lemma_finished_ends_the_run(
    old: WorkerState,
    event: WorkerEvent,
    new: WorkerState,
    action: WorkerAction,
)
    requires
        after_worker_event(old, event, new, action),
    ensures
        (action matches WorkerAction::Tell(Conversion::Finished(_))) == (old is Running
            && event is ReportsEnded),
        action matches WorkerAction::Tell(Conversion::Finished(f)) ==> old == WorkerState::Running(
            f,
        ) && new is Waiting,
{
}

/// ffmpeg is started only on a request that comes while the worker waits;
/// a run that cannot be started, or whose output cannot be captured, ends
/// at once with one error and the worker waits again; a run whose output is
/// captured goes on to pass on ffmpeg's reports.
pub proof fn lemma_start_or_one_error(
    old: WorkerState,
    event: WorkerEvent,
    new: WorkerState,
    action: WorkerAction,
)
    requires
        after_worker_event(old, event, new, action),
    ensures
        (action is Spawn) == (old is Waiting && event is Request),
        old is Starting && (event is SpawnFailed || (event matches WorkerEvent::Spawned {
            stdout,
            stderr,
        } && !(stdout && stderr))) ==> new is Waiting && action matches WorkerAction::Tell(
            Conversion::Error(_),
        ),
        old is Starting && (event matches WorkerEvent::Spawned { stdout, stderr } && stdout
            && stderr) ==> new is Running && action is Wait,
{
}

/// Each step of a run of the worker: `states[i]` becomes `states[i + 1]`
/// on `events[i]`, doing `actions[i]`.
pub open spec fn is_trace(
    states: Seq<WorkerState>,
    events: Seq<WorkerEvent>,
    actions: Seq<WorkerAction>,
) -> bool {
    &&& states.len() == events.len() + 1
    &&& actions.len() == events.len()
    &&& forall|i: int|
        0 <= i < events.len() ==> after_worker_event(
            #[trigger] states[i],
            events[i],
            states[i + 1],
            actions[i],
        )
}

/// The worker stays with a running conversion while ffmpeg reports.
proof fn lemma_running_through_reports(
    states: Seq<WorkerState>,
    events: Seq<WorkerEvent>,
    actions: Seq<WorkerAction>,
    f: String,
    k: int,
)
    requires
        is_trace(states, events, actions),
        2 <= k < events.len(),
        states[2] == WorkerState::Running(f),
        forall|i: int| 2 <= i < events.len() - 1 ==> #[trigger] events[i] is Report,
    ensures
        states[k] == WorkerState::Running(f),
    decreases k,
{
    if k > 2 {
        lemma_running_through_reports(states, events, actions, f, k - 1);
        assert(events[k - 1] is Report);
        assert(after_worker_event(states[k - 1], events[k - 1], states[k], actions[k - 1]));
    }
}

/// A whole conversion: a request that comes while the worker waits, ffmpeg
/// started with both outputs captured, then ffmpeg's reports, then the end
/// of its output. The worker starts ffmpeg, passes every report on in
/// order (progress as progress, errors as errors), and then says once, at
/// the end, that the conversion into the requested file has finished.
pub proof fn lemma_run_reports_then_finishes_once(
    states: Seq<WorkerState>,
    events: Seq<WorkerEvent>,
    actions: Seq<WorkerAction>,
    input: crate::ui::State,
    f: String,
)
    requires
        is_trace(states, events, actions),
        events.len() >= 3,
        states[0] is Waiting,
        events[0] == WorkerEvent::Request(ConversionInput::Start { state: input, output_file: f }),
        events[1] == (WorkerEvent::Spawned { stdout: true, stderr: true }),
        forall|i: int| 2 <= i < events.len() - 1 ==> #[trigger] events[i] is Report,
        events.last() is ReportsEnded,
    ensures
        actions[0] is Spawn,
        actions[1] is Wait,
        forall|i: int|
            2 <= i < events.len() - 1 ==> match #[trigger] events[i] {
                WorkerEvent::Report(Ok(p)) => actions[i] == WorkerAction::Tell(
                    Conversion::Progress(p),
                ),
                WorkerEvent::Report(Err(e)) => actions[i] == WorkerAction::Tell(
                    Conversion::Error(e),
                ),
                _ => false,
            },
        actions.last() == WorkerAction::Tell(Conversion::Finished(f)),
        forall|i: int|
            0 <= i < actions.len() - 1 ==> !(#[trigger] actions[i] matches WorkerAction::Tell(
                Conversion::Finished(_),
            )),
        states.last() is Waiting,
{
    let n = events.len() as int;
    assert(after_worker_event(states[0], events[0], states[1], actions[0]));
    assert(states[1] == WorkerState::Starting(f));
    assert(after_worker_event(states[1], events[1], states[2], actions[1]));
    assert forall|i: int| 2 <= i < n implies #[trigger] states[i] == WorkerState::Running(f) by {
        lemma_running_through_reports(states, events, actions, f, i);
    }
    assert forall|i: int| 2 <= i < n - 1 implies match #[trigger] events[i] {
        WorkerEvent::Report(Ok(p)) => actions[i] == WorkerAction::Tell(Conversion::Progress(p)),
        WorkerEvent::Report(Err(e)) => actions[i] == WorkerAction::Tell(Conversion::Error(e)),
        _ => false,
    } by {
        assert(states[i] == WorkerState::Running(f));
        assert(after_worker_event(states[i], events[i], states[i + 1], actions[i]));
    }
    assert(states[n - 1] == WorkerState::Running(f));
    assert(after_worker_event(states[n - 1], events[n - 1], states[n], actions[n - 1]));
    assert forall|i: int| 0 <= i < n - 1 implies !(#[trigger] actions[i] matches WorkerAction::Tell(
        Conversion::Finished(_),
    )) by {
        if i >= 2 {
            assert(states[i] == WorkerState::Running(f));
            assert(events[i] is Report);
            assert(after_worker_event(states[i], events[i], states[i + 1], actions[i]));
        }
    }
}

} // verus!
