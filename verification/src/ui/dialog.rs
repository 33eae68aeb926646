//! The file dialogs and the inspection of the files they give.
use vstd::prelude::*;

use crate::timestamp::{Timestamp, total_seconds};
use crate::ui::conversion::Conversion;
use crate::ui::{Action, Effect, State, StateUpdate, joined, shows_error};

verus! {

broadcast use vstd::string::group_string_axioms;

/// The file dialogs, and the inspections of the files they give.
#[derive(Debug)]
pub enum Dialog {
    /// The user asks to pick an input video.
    Select,
    /// The picked file, if any.
    SelectFinished(Option<String>),
    /// The state read from the picked file, or why it could not be read.
    SelectInspected(Result<State, String>),
    /// The user asks to convert.
    Convert,
    /// The duration of the input video (or why it could not be read), and
    /// the input's file name if the path has one.
    ConvertInspected(Result<Timestamp, String>, Option<String>),
    /// The chosen output file, if any.
    ConvertFinished(Option<String>),
}

/// What is done on a dialog action in state `st`.
pub open spec fn dialog_effect(st: State, d: Dialog, effect: Effect) -> bool {
    match d {
        Dialog::Select => effect is PickInputFile,
        Dialog::SelectFinished(None) => effect is Nothing,
        Dialog::SelectFinished(Some(p)) => effect == Effect::InspectSelection(p),
        Dialog::SelectInspected(Ok(s)) => effect == Effect::Dispatch(
            Action::StateUpdate(StateUpdate::New(s)),
        ),
        Dialog::SelectInspected(Err(e)) => shows_error(
            effect,
            "failed to initialize state: "@ + e@,
        ),
        Dialog::Convert => effect == Effect::InspectInput(st.file),
        Dialog::ConvertInspected(Err(e), _) => shows_error(effect, "invalid input file: "@ + e@),
        Dialog::ConvertInspected(Ok(length), name) => if total_seconds(st.to@) > total_seconds(
            length@,
        ) {
            shows_error(effect, "'to' timestamp is longer than the video's duration"@)
        } else {
            match name {
                None => shows_error(
                    effect,
                    "invalid input file, failed to get file name from path"@,
                ),
                Some(n) => effect matches Effect::PickOutputFile(f) && f@ == "[converted] "@
                    + n@,
            }
        },
        Dialog::ConvertFinished(None) => effect is Nothing,
        Dialog::ConvertFinished(Some(p)) => effect == Effect::Dispatch(
            Action::Conversion(Conversion::Start(st, p)),
        ),
    }
}

/// Answers a file dialog, or the inspection of a file, in state `state`.
pub fn update(state: &State, message: Dialog) -> (effect: Effect)
    ensures
        dialog_effect(*state, message, effect),
{
    match message {
        Dialog::Select => Effect::PickInputFile,
        Dialog::SelectFinished(None) => Effect::Nothing,
        Dialog::SelectFinished(Some(p)) => Effect::InspectSelection(p),
        Dialog::SelectInspected(Ok(s)) => Effect::Dispatch(
            Action::StateUpdate(StateUpdate::New(s)),
        ),
        Dialog::SelectInspected(Err(e)) => Effect::ShowError(
            joined("failed to initialize state: ", e.as_str()),
        ),
        Dialog::Convert => Effect::InspectInput(state.file.clone()),
        Dialog::ConvertInspected(Err(e), _) => Effect::ShowError(
            joined("invalid input file: ", e.as_str()),
        ),
        Dialog::ConvertInspected(Ok(length), name) => {
            if state.to.total_secs() > length.total_secs() {
                return Effect::ShowError(
                    "'to' timestamp is longer than the video's duration".to_owned(),
                );
            }
            match name {
                None => Effect::ShowError(
                    "invalid input file, failed to get file name from path".to_owned(),
                ),
                Some(n) => Effect::PickOutputFile(joined("[converted] ", n.as_str())),
            }
        },
        Dialog::ConvertFinished(None) => Effect::Nothing,
        Dialog::ConvertFinished(Some(p)) => Effect::Dispatch(
            Action::Conversion(Conversion::Start(state.clone(), p)),
        ),
    }
}


/// Once the video's duration is known, the cut is refused exactly when it
/// ends after the video does, whatever its start; otherwise the output file
/// is asked for, named after the input.
pub proof fn lemma_cut_must_end_within_the_video(
    st: State,
    length: Timestamp,
    name: Option<String>,
    effect: Effect,
)
    requires
        dialog_effect(st, Dialog::ConvertInspected(Ok(length), name), effect),
    ensures
        total_seconds(st.to@) > total_seconds(length@) ==> shows_error(
            effect,
            "'to' timestamp is longer than the video's duration"@,
        ),
        total_seconds(st.to@) <= total_seconds(length@) ==> match name {
            Some(n) => effect matches Effect::PickOutputFile(f) && f@ == "[converted] "@ + n@,
            None => shows_error(effect, "invalid input file, failed to get file name from path"@),
        },
{
}

} // verus!
