//! What comes in from the terminal, and what has to be done outside before the next step.
use vstd::prelude::*;

use crate::clock::Timestamp;
use crate::text::opt_text;

verus! {

/// The keys that mean something.
#[derive(Debug, Clone, Copy, PartialEq, Eq, Structural)]
pub enum KeyCode {
    Char(char),
    Enter,
    Tab,
    Backspace,
    Delete,
    Left,
    Right,
    Up,
    Down,
    PageUp,
    PageDown,
    End,
    Esc,
    Other,
}

/// A key, with the modifiers that were held.
#[derive(Debug, Clone, Copy, PartialEq, Eq, Structural)]
pub struct KeyEvent {
    pub code: KeyCode,
    pub ctrl: bool,
    pub alt: bool,
}

/// What the mouse did.
#[derive(Debug, Clone, Copy, PartialEq, Eq, Structural)]
pub enum MouseEventKind {
    ScrollUp,
    ScrollDown,
    Other,
}

/// An event of the terminal. A key counts when it is pressed, not when it is let go.
#[derive(Debug, Clone, Copy, PartialEq, Eq, Structural)]
pub enum TerminalEvent {
    Key { pressed: bool, key: KeyEvent },
    Mouse(MouseEventKind),
    Other,
}

/// What a key needs to know of the world outside: the time, and the home directory.
#[derive(Debug, Clone)]
pub struct Surroundings {
    pub now: Timestamp,
    pub home: Option<String>,
}

/// What came of a key.
#[derive(Debug, Clone, PartialEq)]
pub enum InputAction {
    /// User submitted a message; file was auto-written to input_file
    Submit { message: String, input_file: Option<String> },
    /// User saved an edit in-place (no scriptlet dispatch)
    Saved { path: String },
    /// No action
    Nothing,
}

#[verifier::ext_equal]
pub enum ActionView {
    Submit { message: Seq<char>, input_file: Option<Seq<char>> },
    Saved { path: Seq<char> },
    Nothing,
}

impl View for InputAction {
    type V = ActionView;

    open spec fn view(&self) -> ActionView {
        match self {
            InputAction::Submit { message, input_file } => ActionView::Submit {
                message: message@,
                input_file: opt_text(*input_file),
            },
            InputAction::Saved { path } => ActionView::Saved { path: path@ },
            InputAction::Nothing => ActionView::Nothing,
        }
    }
}

/// A message on its way to the active input directory.
#[derive(Debug, Clone, PartialEq)]
pub struct PendingInput {
    /// The text that was submitted.
    pub message: String,
    /// The name of its file.
    pub filename: String,
    /// Where to write it, when an input directory is active.
    pub path: Option<String>,
}

#[verifier::ext_equal]
pub struct PendingView {
    pub message: Seq<char>,
    pub filename: Seq<char>,
    pub path: Option<Seq<char>>,
}

impl View for PendingInput {
    type V = PendingView;

    open spec fn view(&self) -> PendingView {
        PendingView {
            message: self.message@,
            filename: self.filename@,
            path: opt_text(self.path),
        }
    }
}

/// Work on the file system that has to be done before the key is dealt with. Each request is
/// answered through the method of `App` that its comment names.
#[derive(Debug, Clone, PartialEq)]
pub enum Request {
    /// Write a submitted message, where it has a path, and tell the time: `finish_submit`.
    StoreInput(PendingInput),
    /// See whether the file exists: `delete_probed`.
    ProbeDelete { path: String },
    /// Remove the file: `file_deleted`.
    Delete { path: String },
    /// See whether the file exists: `edit_probed`.
    ProbeEdit { path: String },
    /// Read the file as text: `edit_opened`.
    ReadEdit { path: String },
    /// See whether the file exists: `save_probed`.
    ProbeSave { path: String },
    /// Write the text to the file: `save_finished`.
    Save { path: String, text: String },
    /// See whether the file exists: `save_and_exit_probed`.
    ProbeSaveExit { path: String },
    /// Write the text to the file: `save_and_exit_finished`.
    SaveExit { path: String, text: String },
    /// See whether the file exists: `import_probed`.
    ProbeImport { path: String },
    /// Copy the file: `file_copied`.
    Copy { from: String, to: String },
    /// See whether this is a directory: `directory_probed`.
    ProbeDir { path: String, is_input: bool },
    /// Find the paths that match the glob pattern: `completions_found`.
    Complete { pattern: String },
}

#[verifier::ext_equal]
pub enum RequestView {
    StoreInput(PendingView),
    ProbeDelete { path: Seq<char> },
    Delete { path: Seq<char> },
    ProbeEdit { path: Seq<char> },
    ReadEdit { path: Seq<char> },
    ProbeSave { path: Seq<char> },
    Save { path: Seq<char>, text: Seq<char> },
    ProbeSaveExit { path: Seq<char> },
    SaveExit { path: Seq<char>, text: Seq<char> },
    ProbeImport { path: Seq<char> },
    Copy { from: Seq<char>, to: Seq<char> },
    ProbeDir { path: Seq<char>, is_input: bool },
    Complete { pattern: Seq<char> },
}

impl View for Request {
    type V = RequestView;

    open spec fn view(&self) -> RequestView {
        match self {
            Request::StoreInput(p) => RequestView::StoreInput(p@),
            Request::ProbeDelete { path } => RequestView::ProbeDelete { path: path@ },
            Request::Delete { path } => RequestView::Delete { path: path@ },
            Request::ProbeEdit { path } => RequestView::ProbeEdit { path: path@ },
            Request::ReadEdit { path } => RequestView::ReadEdit { path: path@ },
            Request::ProbeSave { path } => RequestView::ProbeSave { path: path@ },
            Request::Save { path, text } => RequestView::Save { path: path@, text: text@ },
            Request::ProbeSaveExit { path } => RequestView::ProbeSaveExit { path: path@ },
            Request::SaveExit { path, text } => RequestView::SaveExit {
                path: path@,
                text: text@,
            },
            Request::ProbeImport { path } => RequestView::ProbeImport { path: path@ },
            Request::Copy { from, to } => RequestView::Copy { from: from@, to: to@ },
            Request::ProbeDir { path, is_input } => RequestView::ProbeDir {
                path: path@,
                is_input: *is_input,
            },
            Request::Complete { pattern } => RequestView::Complete { pattern: pattern@ },
        }
    }
}

/// What a key, or the answer to a request, leads to.
#[derive(Debug, Clone, PartialEq)]
pub enum Step {
    /// The key is dealt with.
    Done(InputAction),
    /// Something has to be done outside first.
    Ask(Request),
}

#[verifier::ext_equal]
pub enum StepView {
    Done(ActionView),
    Ask(RequestView),
}

impl View for Step {
    type V = StepView;

    open spec fn view(&self) -> StepView {
        match self {
            Step::Done(a) => StepView::Done(a@),
            Step::Ask(r) => StepView::Ask(r@),
        }
    }
}

/// The step after which nothing remains to be done.
pub open spec fn idle() -> StepView {
    StepView::Done(ActionView::Nothing)
}

/// Nothing remains to be done.
pub fn idle_step() -> (s: Step)
    ensures
        s@ == idle(),
{
    Step::Done(InputAction::Nothing)
}

} // verus!
