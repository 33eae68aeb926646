//! The editor's state, and how it answers each action.
//!
//! The window, the dialogs, the clipboard and the ffmpeg runs live outside
//! the library: `State::update` says what is to be done as an `Effect`, and
//! the answers of that outside work come back as further actions.
use vstd::prelude::*;

pub mod conversion;
pub mod dialog;
pub mod validation;

use crate::ffmpeg::ConversionInput;
use crate::text::{decimal, trim};
use crate::timestamp::{
    TimeParts, Timestamp, TimestampError, display_parts, empty_parts,
    lemma_display_parse_roundtrip, parse_timestamp, timestamp_error_text, total_seconds,
};
use crate::ui::validation::{validate_state, validation_errors};
use crate::ui::conversion::{Conversion, ConversionState, after_conversion, is_idle};
use crate::ui::dialog::{Dialog, dialog_effect};

verus! {

broadcast use vstd::string::group_string_axioms;

/// Everything the user has entered.
#[derive(Debug)]
pub struct State {
    pub from: Timestamp,
    pub to: Timestamp,
    /// The text typed for `from` and `to`.
    pub from_str: String,
    pub to_str: String,
    /// The input video.
    pub file: String,
    /// The frame rate, as typed.
    pub fps: String,
    pub lower_720p: bool,
    /// Whether the output is to have no audio.
    pub mute_audio: bool,
    pub copy_clipboard: bool,
    pub conversion: ConversionState,
}

impl Clone for State {
    fn clone(&self) -> (s: State)
        ensures
            s == *self,
    {
        State {
            from: self.from,
            to: self.to,
            from_str: self.from_str.clone(),
            to_str: self.to_str.clone(),
            file: self.file.clone(),
            fps: self.fps.clone(),
            lower_720p: self.lower_720p,
            mute_audio: self.mute_audio,
            copy_clipboard: self.copy_clipboard,
            conversion: self.conversion,
        }
    }
}

/// The state before anything is entered: empty fields, 720p and copying
/// to the clipboard on, audio kept, no conversion.
pub open spec fn is_fresh(s: State) -> bool {
    &&& s.from@ == empty_parts()
    &&& s.to@ == empty_parts()
    &&& s.from_str@ == Seq::<char>::empty()
    &&& s.to_str@ == Seq::<char>::empty()
    &&& s.file@ == Seq::<char>::empty()
    &&& s.fps@ == Seq::<char>::empty()
    &&& s.lower_720p
    &&& !s.mute_audio
    &&& s.copy_clipboard
    &&& is_idle(s.conversion, false)
}

impl Default for State {
    fn default() -> (s: State)
        ensures
            is_fresh(s),
    {
        State {
            from: Timestamp::default(),
            to: Timestamp::default(),
            from_str: String::new(),
            to_str: String::new(),
            file: String::new(),
            fps: String::new(),
            lower_720p: true,
            mute_audio: false,
            copy_clipboard: true,
            conversion: ConversionState::default(),
        }
    }
}

/// A change the user makes to the fields.
#[derive(Debug)]
pub enum StateUpdate {
    From(String),
    To(String),
    File(String),
    Fps(String),
    Lower720p(bool),
    MuteAudio(bool),
    CopyClipboard(bool),
    /// Replace everything but the conversion.
    New(State),
}

/// Everything the editor reacts to.
#[derive(Debug)]
pub enum Action {
    /// Nothing to do.
    Nothing,
    StateUpdate(StateUpdate),
    Conversion(Conversion),
    Dialog(Dialog),
}

/// The outside work that an action calls for.
#[derive(Debug)]
pub enum Effect {
    /// Nothing to do.
    Nothing,
    /// Show this error to the user.
    ShowError(String),
    /// Open the dialog that picks an input video.
    PickInputFile,
    /// Read the video at this path and answer with `Dialog::SelectInspected`.
    InspectSelection(String),
    /// Read the video at this path and answer with `Dialog::ConvertInspected`.
    InspectInput(String),
    /// Open the dialog that picks the output file, suggesting this name.
    PickOutputFile(String),
    /// Handle this action next.
    Dispatch(Action),
    /// Hand this request to the conversion worker.
    StartConversion(ConversionInput),
    /// Copy this file to the clipboard.
    CopyToClipboard(String),
}

/// The effect is an error with this message.
pub open spec fn shows_error(effect: Effect, message: Seq<char>) -> bool {
    effect matches Effect::ShowError(m) && m@ == message
}

/// What the fields become after a change.
pub open spec fn after_state_update(old: State, u: StateUpdate, new: State) -> bool {
    match u {
        StateUpdate::From(s) => match parse_timestamp(s@) {
            Ok(p) => new == (State { from: new.from, from_str: s, ..old }) && new.from@ == p,
            Err(_) => new == old,
        },
        StateUpdate::To(s) => match parse_timestamp(s@) {
            Ok(p) => new == (State { to: new.to, to_str: s, ..old }) && new.to@ == p,
            Err(_) => new == old,
        },
        StateUpdate::File(s) => new == (State { file: s, ..old }),
        StateUpdate::Fps(s) => new == (State { fps: s, ..old }),
        StateUpdate::Lower720p(b) => new == (State { lower_720p: b, ..old }),
        StateUpdate::MuteAudio(b) => new == (State { mute_audio: b, ..old }),
        StateUpdate::CopyClipboard(b) => new == (State { copy_clipboard: b, ..old }),
        StateUpdate::New(s) => new == (State { conversion: old.conversion, ..s }),
    }
}

/// `prefix` followed by `rest`.
pub(crate) fn joined(prefix: &str, rest: &str) -> (m: String)
    ensures
        m@ == prefix@ + rest@,
{
    let mut m = prefix.to_owned();
    m.append(rest);
    m
}

/// The time stamp `00:00`.
pub open spec fn zero_minutes_seconds() -> TimeParts {
    TimeParts { hours: None, minutes: Some(0u8), seconds: Some(0u8) }
}

/// The state read from a video: the cut spans the whole video, from
/// `00:00` to its duration, and the frame rate is the video's; the rest is
/// as in a fresh state.
pub open spec fn is_initial_state(s: State, file: Seq<char>, length: String, fps: String) -> bool {
    &&& s.from@ == zero_minutes_seconds()
    &&& s.from_str@ == "00:00"@
    &&& parse_timestamp(length@) == Ok::<TimeParts, TimestampError>(s.to@)
    &&& s.to_str == length
    &&& s.file@ == file
    &&& s.fps == fps
    &&& s.lower_720p
    &&& !s.mute_audio
    &&& s.copy_clipboard
    &&& is_idle(s.conversion, false)
}

/// What the state becomes, and what is done, on an action.
pub open spec fn after_update(old: State, action: Action, new: State, effect: Effect) -> bool {
    match action {
        Action::Nothing => new == old && effect is Nothing,
        Action::StateUpdate(u) => after_state_update(old, u, new) && effect is Nothing,
        Action::Conversion(c) => new == (State { conversion: new.conversion, ..old })
            && after_conversion(old.conversion, c, new.conversion, effect),
        Action::Dialog(d) => new == old && dialog_effect(old, d, effect),
    }
}

/// The time stamps are what their texts read as.
pub open spec fn texts_agree(s: State) -> bool {
    &&& parse_timestamp(s.from_str@) == Ok::<TimeParts, TimestampError>(s.from@)
    &&& parse_timestamp(s.to_str@) == Ok::<TimeParts, TimestampError>(s.to@)
}

/// A fresh state's time stamps agree with their (empty) texts.
pub proof fn lemma_fresh_texts_agree(s: State)
    requires
        is_fresh(s),
    ensures
        texts_agree(s),
{
    assert(trim(Seq::<char>::empty()) == Seq::<char>::empty());
}

/// The state read from a video has its time stamps agree with their texts.
pub proof fn lemma_initial_texts_agree(s: State, file: Seq<char>, length: String, fps: String)
    requires
        is_initial_state(s, file, length, fps),
    ensures
        texts_agree(s),
{
    reveal_strlit("00:00");
    assert(decimal(0) == seq!['0']);
    assert(display_parts(zero_minutes_seconds()) =~= "00:00"@);
    lemma_display_parse_roundtrip(zero_minutes_seconds());
}

/// Every action keeps the time stamps in agreement with their texts,
/// provided a whole state handed in agrees as well: text that does not
/// read as a time stamp changes nothing.
pub proof fn lemma_update_keeps_texts_agreeing(
    old: State,
    action: Action,
    new: State,
    effect: Effect,
)
    requires
        texts_agree(old),
        after_update(old, action, new, effect),
        action matches Action::StateUpdate(StateUpdate::New(s)) ==> texts_agree(s),
    ensures
        texts_agree(new),
{
}

/// Only changes to the fields touch them: doing nothing and the dialogs
/// leave the state as it was, and the worker's reports and the start of a
/// conversion change only the conversion's state, as `conversion::update`
/// does.
pub proof fn lemma_update_frame(old: State, action: Action, new: State, effect: Effect)
    requires
        after_update(old, action, new, effect),
    ensures
        action is Nothing ==> new == old && effect is Nothing,
        action is Dialog ==> new == old,
        action matches Action::Conversion(c) ==> new == (State { conversion: new.conversion, ..old })
            && after_conversion(old.conversion, c, new.conversion, effect),
{
}

impl State {
    /// Builds the state for the video at `file` from whether the file
    /// exists and what ffprobe said of it: its duration as `MM:SS` (or why
    /// that could not be read), its frame rate (or why not), and whether it
    /// holds a video stream.
    pub fn new(
        file: &str,
        exists: bool,
        length: Result<String, String>,
        fps: Result<String, String>,
        is_video: bool,
    ) -> (r: Result<State, String>)
        ensures
            !exists ==> (r matches Err(m) && m@ == "file \""@ + file@ + "\" does not exist"@),
            exists ==> match (length, fps) {
                (Err(e), _) => r matches Err(m) && m@ == "failed to get video length: "@ + e@,
                (Ok(_), Err(e)) => r matches Err(m) && m@ == "failed to get video fps: "@ + e@,
                (Ok(l), Ok(f)) => if !is_video {
                    r matches Err(m) && m@ == "input file does not contain a valid video stream"@
                } else {
                    match parse_timestamp(l@) {
                        Err(te) => r matches Err(m) && m@ == "failed to get video length: "@
                            + timestamp_error_text(te),
                        Ok(_) => r matches Ok(s) && is_initial_state(s, file@, l, f),
                    }
                },
            },
            r matches Ok(s) ==> display_parts(s.from@) == s.from_str@,
    {
        if !exists {
            let mut m = joined("file \"", file);
            m.append("\" does not exist");
            return Err(m);
        }
        let length = match length {
            Ok(l) => l,
            Err(e) => {
                return Err(joined("failed to get video length: ", e.as_str()));
            },
        };
        let fps = match fps {
            Ok(f) => f,
            Err(e) => {
                return Err(joined("failed to get video fps: ", e.as_str()));
            },
        };
        if !is_video {
            return Err("input file does not contain a valid video stream".to_owned());
        }
        let to = match Timestamp::new(length.as_str()) {
            Ok(t) => t,
            Err(te) => {
                let m = te.message();
                return Err(joined("failed to get video length: ", m.as_str()));
            },
        };
        proof {
            reveal_strlit("00:00");
            assert(decimal(0) == seq!['0']);
            assert(display_parts(zero_minutes_seconds()) =~= "00:00"@);
            lemma_display_parse_roundtrip(zero_minutes_seconds());
        }
        let from = Timestamp::new("00:00").unwrap();
        Ok(
            State {
                from,
                to,
                from_str: "00:00".to_owned(),
                to_str: length,
                file: file.to_owned(),
                fps,
                lower_720p: true,
                mute_audio: false,
                copy_clipboard: true,
                conversion: ConversionState::default(),
            },
        )
    }

    /// Whether the convert button is active: everything entered passes
    /// the checks and no conversion is running.
    pub fn can_convert(&self, file_exists: bool) -> (b: bool)
        ensures
            b == (validation_errors(self.from@, self.to@, file_exists, self.fps@).len() == 0
                && !self.conversion.converting),
    {
        let errors = validate_state(self, file_exists);
        errors.len() == 0 && !self.conversion.converting
    }

    /// Answers an action: changes the state and says what is to be done.
    pub fn update(&mut self, action: Action) -> (effect: Effect)
        requires
            action matches Action::Conversion(Conversion::Start(..)) ==> old(
                self,
            ).conversion.channel_ready,
        ensures
            after_update(*old(self), action, *final(self), effect),
    {
        match action {
            Action::Nothing => Effect::Nothing,
            Action::StateUpdate(u) => {
                self.apply(u);
                Effect::Nothing
            },
            Action::Conversion(c) => conversion::update(&mut self.conversion, c),
            Action::Dialog(d) => dialog::update(self, d),
        }
    }

    fn apply(&mut self, u: StateUpdate)
        ensures
            after_state_update(*old(self), u, *final(self)),
    {
        match u {
            StateUpdate::From(s) => {
                if let Ok(t) = Timestamp::new(s.as_str()) {
                    self.from = t;
                    self.from_str = s;
                }
            },
            StateUpdate::To(s) => {
                if let Ok(t) = Timestamp::new(s.as_str()) {
                    self.to = t;
                    self.to_str = s;
                }
            },
            StateUpdate::File(s) => {
                self.file = s;
            },
            StateUpdate::Fps(s) => {
                self.fps = s;
            },
            StateUpdate::Lower720p(b) => {
                self.lower_720p = b;
            },
            StateUpdate::MuteAudio(b) => {
                self.mute_audio = b;
            },
            StateUpdate::CopyClipboard(b) => {
                self.copy_clipboard = b;
            },
            StateUpdate::New(s) => {
                let conversion = self.conversion;
                *self = State { conversion, ..s };
            },
        }
    }

}


/// Replacing the state takes every field of the new state, the frame rate
/// and the options among them, and keeps only the running conversion.
pub proof fn lemma_new_state_replaces_fields(old: State, s: State, new: State)
    requires
        after_state_update(old, StateUpdate::New(s), new),
    ensures
        new.from == s.from,
        new.to == s.to,
        new.from_str == s.from_str,
        new.to_str == s.to_str,
        new.file == s.file,
        new.fps == s.fps,
        new.lower_720p == s.lower_720p,
        new.mute_audio == s.mute_audio,
        new.copy_clipboard == s.copy_clipboard,
        new.conversion == old.conversion,
{
}


/// An edit of one field sets that field to what was entered and leaves
/// the others, and the conversion, as they were; time stamp text that
/// does not read as a time stamp changes nothing.
pub proof fn lemma_edit_sets_one_field(old: State, u: StateUpdate, new: State)
    requires
        after_state_update(old, u, new),
    ensures
        u matches StateUpdate::Fps(f) ==> new.fps == f && new.file == old.file && new.from_str
            == old.from_str && new.to_str == old.to_str && new.conversion == old.conversion,
        u matches StateUpdate::File(f) ==> new.file == f && new.fps == old.fps && new.from_str
            == old.from_str && new.to_str == old.to_str && new.conversion == old.conversion,
        u matches StateUpdate::Lower720p(b) ==> new.lower_720p == b && new.mute_audio
            == old.mute_audio && new.copy_clipboard == old.copy_clipboard && new.fps == old.fps,
        u matches StateUpdate::MuteAudio(b) ==> new.mute_audio == b && new.lower_720p
            == old.lower_720p && new.copy_clipboard == old.copy_clipboard && new.fps == old.fps,
        u matches StateUpdate::CopyClipboard(b) ==> new.copy_clipboard == b && new.lower_720p
            == old.lower_720p && new.mute_audio == old.mute_audio && new.fps == old.fps,
        u matches StateUpdate::From(t) ==> (match parse_timestamp(t@) {
            Ok(p) => new.from@ == p && new.from_str == t && new.to == old.to && new.to_str
                == old.to_str && new.fps == old.fps,
            Err(_) => new == old,
        }),
        u matches StateUpdate::To(t) ==> (match parse_timestamp(t@) {
            Ok(p) => new.to@ == p && new.to_str == t && new.from == old.from && new.from_str
                == old.from_str && new.fps == old.fps,
            Err(_) => new == old,
        }),
{
}

/// The state read from a video cuts from zero seconds (written `00:00`) to
/// the video's length, for the given file at the given frame rate, with the
/// default options and no conversion running.
pub proof fn lemma_initial_state_spans_the_video(
    s: State,
    file: Seq<char>,
    length: String,
    fps: String,
)
    requires
        is_initial_state(s, file, length, fps),
    ensures
        total_seconds(s.from@) == 0,
        s.from_str@ == "00:00"@,
        s.to_str == length,
        parse_timestamp(length@) == Ok::<TimeParts, TimestampError>(s.to@),
        s.file@ == file,
        s.fps == fps,
        s.lower_720p && s.copy_clipboard && !s.mute_audio,
        !s.conversion.converting && s.conversion.progress == 0,
{
}

} // verus!
