//! Keys while a file is edited in the input box.
use vstd::prelude::*;

use crate::clock::Timestamp;
use crate::events::{
    idle, idle_step, ActionView, InputAction, KeyCode, KeyEvent, Request, RequestView, Step,
    StepView,
};
use crate::normal::{character_keys_type, lemma_insert_bytes, normal_ready, normal_state};
use crate::paths::{quote, quoted};
use crate::select::opened_state;
use crate::state::{wf, with_status, App, AppMode, AppView, ModeView};
use crate::text::{byte_len, chain, chain3, lemma_chars_before, opt_text, text_len};

verus! {

/// The line of status while a file is edited; a star marks unsaved changes.
pub open spec fn editing_line(path: Seq<char>, dirty: bool) -> Seq<char> {
    let marker = if dirty {
        " [*]"@
    } else {
        ""@
    };
    "Editing: "@ + quoted(path) + marker + " | Ctrl+S save | Enter:save+exit | Esc cancel"@
}

/// The state with the line of status that editing shows; any other mode keeps its own.
pub open spec fn editing_shown(a: AppView) -> AppView {
    match a.mode {
        ModeView::EditFile { target_path, dirty } => with_status(
            a,
            editing_line(target_path, dirty),
        ),
        _ => a,
    }
}

/// A change of length counts as a change of the file.
pub open spec fn change_marked(a: AppView, bytes_before: nat) -> AppView {
    match a.mode {
        ModeView::EditFile { target_path, dirty } => AppView {
            mode: ModeView::EditFile {
                target_path,
                dirty: dirty || byte_len(a.input_text) != bytes_before,
            },
            ..a
        },
        _ => a,
    }
}

pub open spec fn is_save(key: KeyEvent) -> bool {
    key.code == KeyCode::Char('s') && key.ctrl
}

/// The key is dealt with as while a message is typed.
pub open spec fn edits_text(key: KeyEvent) -> bool {
    !is_save(key) && key.code != KeyCode::Esc && key.code != KeyCode::Enter
}

/// What a key does while a file is edited.
pub open spec fn edit_state(a: AppView, key: KeyEvent) -> AppView {
    if key.code == KeyCode::Esc {
        AppView { mode: ModeView::Normal, status_message: None, ..a }
    } else if edits_text(key) {
        editing_shown(change_marked(normal_state(a, key), byte_len(a.input_text)))
    } else {
        a
    }
}

/// The step that a key leads to while the file `target` is edited.
pub open spec fn edit_step(target: Seq<char>, key: KeyEvent) -> StepView {
    if is_save(key) {
        StepView::Ask(RequestView::ProbeSave { path: target })
    } else if key.code == KeyCode::Enter {
        StepView::Ask(RequestView::ProbeSaveExit { path: target })
    } else {
        idle()
    }
}

/// The state after an attempt to save: the changes are marked as saved when it succeeded.
pub open spec fn saved_state(a: AppView, ok: bool) -> AppView {
    editing_shown(
        match a.mode {
            ModeView::EditFile { target_path, dirty } => AppView {
                mode: ModeView::EditFile { target_path, dirty: dirty && !ok },
                ..a
            },
            _ => a,
        },
    )
}

/// The line of status when the edited file is gone.
pub open spec fn gone_line() -> Seq<char> {
    "Original file no longer exists on disk"@
}

/// Editing is over.
pub open spec fn edit_closed(a: AppView) -> AppView {
    AppView { mode: ModeView::Normal, status_message: None, ..a }
}

/// What is known about the file to save.
pub open spec fn save_probed_state(a: AppView, exists: bool) -> AppView {
    if exists && a.mode is EditFile {
        a
    } else {
        editing_shown(a)
    }
}

/// The step that follows: the text is written to a file that is still there.
pub open spec fn save_step(a: AppView, exists: bool) -> StepView {
    match a.mode {
        ModeView::EditFile { target_path, .. } if exists => StepView::Ask(
            RequestView::Save { path: target_path, text: a.input_text },
        ),
        _ => idle(),
    }
}

/// What is known about the file to save before the editor is left.
pub open spec fn save_exit_probed_state(a: AppView, exists: bool) -> AppView {
    if a.mode is EditFile && !exists {
        with_status(a, gone_line())
    } else {
        a
    }
}

/// The step that follows: the text is written to a file that is still there.
pub open spec fn save_exit_step(a: AppView, exists: bool) -> StepView {
    match a.mode {
        ModeView::EditFile { target_path, .. } if exists => StepView::Ask(
            RequestView::SaveExit { path: target_path, text: a.input_text },
        ),
        _ => idle(),
    }
}

/// What saving and leaving came to: with an error the editor stays open.
pub open spec fn save_exit_state(a: AppView, error: Option<Seq<char>>) -> AppView {
    match (a.mode, error) {
        (ModeView::EditFile { .. }, None) => edit_closed(a),
        (ModeView::EditFile { .. }, Some(e)) => with_status(a, "Save failed: "@ + e),
        _ => a,
    }
}

/// What came of saving and leaving: the file was saved, or nothing.
pub open spec fn save_exit_action(a: AppView, error: Option<Seq<char>>) -> ActionView {
    match (a.mode, error) {
        (ModeView::EditFile { target_path, .. }, None) => ActionView::Saved { path: target_path },
        _ => ActionView::Nothing,
    }
}

impl App {
    /// Deals with a key while a file is edited.
    pub fn handle_key_edit(&mut self, key: KeyEvent, now: Timestamp) -> (step: Step)
        requires
            wf(old(self)@),
            old(self)@.mode is EditFile && edits_text(key) ==> normal_ready(old(self)@, key),
        ensures
            match old(self)@.mode {
                ModeView::EditFile { target_path, .. } => {
                    &&& final(self)@ == edit_state(old(self)@, key)
                    &&& step@ == edit_step(target_path, key)
                },
                _ => final(self)@ == old(self)@ && step@ == idle(),
            },
            wf(final(self)@),
    {
        let target: String = match &self.mode {
            AppMode::EditFile { target_path, dirty: _ } => target_path.clone(),
            _ => {
                return idle_step();
            },
        };
        match key.code {
            KeyCode::Esc => {
                self.mode = AppMode::Normal;
                self.status_message = None;
                return idle_step();
            },
            KeyCode::Enter => {
                return Step::Ask(Request::ProbeSaveExit { path: target });
            },
            KeyCode::Char('s') => {
                if key.ctrl {
                    return Step::Ask(Request::ProbeSave { path: target });
                }
            },
            _ => {},
        }
        let len_before = text_len(self.input_text.as_str());
        let _ = self.handle_key_normal(key, now);
        let changed = text_len(self.input_text.as_str()) != len_before;
        self.mark_change(changed);
        self.show_editing();
        idle_step()
    }

    fn mark_change(&mut self, changed: bool)
        requires
            wf(old(self)@),
        ensures
            final(self)@ == (match old(self)@.mode {
                ModeView::EditFile { target_path, dirty } => AppView {
                    mode: ModeView::EditFile { target_path, dirty: dirty || changed },
                    ..old(self)@
                },
                _ => old(self)@,
            }),
            wf(final(self)@),
    {
        if let AppMode::EditFile { target_path, dirty } = &self.mode {
            let marked = *dirty || changed;
            self.mode = AppMode::EditFile { target_path: target_path.clone(), dirty: marked };
        }
    }

    /// Shows the line of status of the edited file again.
    fn show_editing(&mut self)
        requires
            wf(old(self)@),
        ensures
            final(self)@ == editing_shown(old(self)@),
            wf(final(self)@),
    {
        if let AppMode::EditFile { target_path, dirty } = &self.mode {
            let marker = if *dirty {
                " [*]"
            } else {
                ""
            };
            let shown = quote(target_path.as_str());
            let mut line = chain3("Editing: ", shown.as_str(), marker);
            line.append(" | Ctrl+S save | Enter:save+exit | Esc cancel");
            self.set_status(line);
        }
    }

    /// Goes on with saving once it is known whether the file is still there.
    pub fn save_probed(&mut self, exists: bool) -> (step: Step)
        requires
            wf(old(self)@),
        ensures
            wf(final(self)@),
            final(self)@ == save_probed_state(old(self)@, exists),
            step@ == save_step(old(self)@, exists),
    {
        if exists {
            if let AppMode::EditFile { target_path, dirty: _ } = &self.mode {
                return Step::Ask(
                    Request::Save { path: target_path.clone(), text: self.input_text.clone() },
                );
            }
        }
        self.show_editing();
        idle_step()
    }

    /// Tells whether the file could be written.
    pub fn save_finished(&mut self, ok: bool)
        requires
            wf(old(self)@),
        ensures
            final(self)@ == saved_state(old(self)@, ok),
            wf(final(self)@),
    {
        if let AppMode::EditFile { target_path, dirty } = &self.mode {
            let marked = *dirty && !ok;
            self.mode = AppMode::EditFile { target_path: target_path.clone(), dirty: marked };
        }
        self.show_editing();
    }

    /// Goes on with saving and leaving once it is known whether the file is still there. A file
    /// that is gone is not written again, and the editor stays open.
    pub fn save_and_exit_probed(&mut self, exists: bool) -> (step: Step)
        requires
            wf(old(self)@),
        ensures
            wf(final(self)@),
            final(self)@ == save_exit_probed_state(old(self)@, exists),
            step@ == save_exit_step(old(self)@, exists),
    {
        let target: String = match &self.mode {
            AppMode::EditFile { target_path, dirty: _ } => target_path.clone(),
            _ => {
                return idle_step();
            },
        };
        if exists {
            return Step::Ask(Request::SaveExit { path: target, text: self.input_text.clone() });
        }
        self.set_status("Original file no longer exists on disk".to_owned());
        idle_step()
    }

    /// Leaves the editor when the file could be written, and tells the error otherwise.
    pub fn save_and_exit_finished(&mut self, error: Option<String>) -> (action: InputAction)
        requires
            wf(old(self)@),
        ensures
            wf(final(self)@),
            final(self)@ == save_exit_state(old(self)@, opt_text(error)),
            action@ == save_exit_action(old(self)@, opt_text(error)),
    {
        let target: String = match &self.mode {
            AppMode::EditFile { target_path, dirty: _ } => target_path.clone(),
            _ => {
                return InputAction::Nothing;
            },
        };
        match error {
            Some(e) => {
                self.set_status(chain("Save failed: ", e.as_str()));
                InputAction::Nothing
            },
            None => {
                self.mode = AppMode::Normal;
                self.status_message = None;
                InputAction::Saved { path: target }
            },
        }
    }
}

/// Esc closes the editor and asks for nothing to be written.
pub proof fn escape_saves_nothing(a: AppView, target: Seq<char>, key: KeyEvent)
    requires
        key.code == KeyCode::Esc,
    ensures
        edit_state(a, key).mode is Normal,
        edit_step(target, key) == idle(),
        edit_state(a, key).messages == a.messages,
{
}

/// Typing in the editor asks for nothing to be written, and never adds to the history or the
/// timeline.
pub proof fn editing_writes_nothing(a: AppView, target: Seq<char>, key: KeyEvent)
    requires
        edits_text(key),
    ensures
        edit_step(target, key) == idle(),
        edit_state(a, key).history == a.history,
        edit_state(a, key).messages == a.messages,
{
}

/// While a file is edited, it stays the same file: whatever key comes, the editor either is left
/// or goes on with the path that it was opened with, and what is saved goes there.
pub proof fn editing_keeps_its_file(a: AppView, target: Seq<char>, dirty: bool, key: KeyEvent)
    requires
        a.mode == (ModeView::EditFile { target_path: target, dirty }),
    ensures
        edit_state(a, key).mode matches ModeView::EditFile { target_path, .. } ==> target_path
            == target,
        match edit_step(target, key) {
            StepView::Ask(RequestView::ProbeSave { path }) => path == target,
            StepView::Ask(RequestView::ProbeSaveExit { path }) => path == target,
            StepView::Ask(_) => false,
            StepView::Done(_) => true,
        },
{
}

/// A file that is opened stands in the input box as it reads, unchanged, and under its own path:
/// saved at once, it is written as it was read.
pub proof fn opened_file_stands_as_it_reads(a: AppView, path: Seq<char>, content: Seq<char>)
    ensures
        ({
            let b = opened_state(a, path, Some(content));
            &&& b.mode == (ModeView::EditFile { target_path: path, dirty: false })
            &&& b.input_text == content
            &&& b.input_cursor == byte_len(content)
        }),
{
}

/// Ctrl+S asks for the edited file to be saved, and Enter for it to be saved and left, with or
/// without Ctrl; neither changes anything yet. Esc leaves the editor as it is.
pub proof fn saving_is_asked_for(a: AppView, target: Seq<char>, key: KeyEvent)
    ensures
        key.code == KeyCode::Char('s') && key.ctrl ==> edit_state(a, key) == a && edit_step(
            target,
            key,
        ) == StepView::Ask(RequestView::ProbeSave { path: target }),
        key.code == KeyCode::Enter ==> edit_state(a, key) == a && edit_step(target, key)
            == StepView::Ask(RequestView::ProbeSaveExit { path: target }),
        key.code == KeyCode::Esc ==> edit_state(a, key) == (AppView {
            mode: ModeView::Normal,
            status_message: None,
            ..a
        }),
        key.code == KeyCode::Char('s') && !key.ctrl ==> edit_step(target, key) == StepView::Done(
            ActionView::Nothing,
        ),
{
}

/// In the editor a plain character is typed where the cursor stands, whichever it is, also where
/// nothing is typed yet; the file counts as changed from then on, and the status says so.
pub proof fn editing_types_characters(
    a: AppView,
    target: Seq<char>,
    dirty: bool,
    key: KeyEvent,
    k: int,
    c: char,
)
    requires
        a.mode == (ModeView::EditFile { target_path: target, dirty }),
        0 <= k <= a.input_text.len(),
        a.input_cursor == byte_len(a.input_text.take(k)),
        key.code == KeyCode::Char(c),
        !key.ctrl,
        !key.alt,
    ensures
        ({
            let b = edit_state(a, key);
            &&& b.input_text == a.input_text.take(k) + seq![c] + a.input_text.skip(k)
            &&& b.input_cursor == a.input_cursor + 1
            &&& b.mode == (ModeView::EditFile { target_path: target, dirty: true })
            &&& b.status_message == Some(
                "Editing: "@ + quoted(target) + " [*]"@
                    + " | Ctrl+S save | Enter:save+exit | Esc cancel"@,
            )
            &&& b == AppView {
                input_text: b.input_text,
                input_cursor: b.input_cursor,
                mode: b.mode,
                status_message: b.status_message,
                ..a
            }
        }),
{
    character_keys_type(a, key, k, c);
    lemma_chars_before(a.input_text, k);
    lemma_insert_bytes(a.input_text, k, c);
}

/// The keys that edit do to the text what they do while a message is typed. The file counts as
/// changed once the length of the text has changed, and goes on to do so; the status marks it
/// exactly then.
pub proof fn changes_are_marked(a: AppView, target: Seq<char>, dirty: bool, key: KeyEvent)
    requires
        a.mode == (ModeView::EditFile { target_path: target, dirty }),
        key.code != KeyCode::Esc,
        key.code != KeyCode::Enter,
        !(key.code == KeyCode::Char('s') && key.ctrl),
    ensures
        ({
            let b = edit_state(a, key);
            let n = normal_state(a, key);
            &&& b.input_text == n.input_text
            &&& b.input_cursor == n.input_cursor
            &&& b.scroll_offset == n.scroll_offset
            &&& b.history_index == n.history_index
            &&& n.mode == a.mode ==> b.mode == (ModeView::EditFile {
                target_path: target,
                dirty: dirty || byte_len(b.input_text) != byte_len(a.input_text),
            })
            &&& n.mode != a.mode ==> b == n
            &&& n.mode == a.mode && (dirty || byte_len(b.input_text) != byte_len(a.input_text))
                ==> b.status_message == Some(
                "Editing: "@ + quoted(target) + " [*]"@
                    + " | Ctrl+S save | Enter:save+exit | Esc cancel"@,
            )
            &&& n.mode == a.mode && !dirty && byte_len(b.input_text) == byte_len(a.input_text)
                ==> b.status_message == Some(
                "Editing: "@ + quoted(target) + ""@
                    + " | Ctrl+S save | Enter:save+exit | Esc cancel"@,
            )
        }),
{
}

/// The file that is edited is written with what stands in the input, whole and under its own
/// path, as long as it is still there; a file that is gone is not written again. Saving goes on
/// with the editor open, and the changes count as saved exactly when the file could be written.
pub proof fn the_edited_text_is_saved(
    a: AppView,
    target: Seq<char>,
    dirty: bool,
    exists: bool,
    ok: bool,
)
    requires
        a.mode == (ModeView::EditFile { target_path: target, dirty }),
    ensures
        exists ==> save_step(a, exists) == StepView::Ask(
            RequestView::Save { path: target, text: a.input_text },
        ) && save_probed_state(a, exists) == a,
        !exists ==> save_step(a, exists) == StepView::Done(ActionView::Nothing)
            && save_probed_state(a, exists) == (AppView {
            status_message: Some(
                "Editing: "@ + quoted(target) + (if dirty {
                    " [*]"@
                } else {
                    ""@
                }) + " | Ctrl+S save | Enter:save+exit | Esc cancel"@,
            ),
            ..a
        }),
        ok ==> saved_state(a, ok).mode == (ModeView::EditFile {
            target_path: target,
            dirty: false,
        }),
        !ok ==> saved_state(a, ok).mode == a.mode,
        saved_state(a, ok) == (AppView {
            mode: saved_state(a, ok).mode,
            status_message: saved_state(a, ok).status_message,
            ..a
        }),
        ok || !dirty ==> saved_state(a, ok).status_message == Some(
            "Editing: "@ + quoted(target) + ""@ + " | Ctrl+S save | Enter:save+exit | Esc cancel"@,
        ),
        !ok && dirty ==> saved_state(a, ok).status_message == Some(
            "Editing: "@ + quoted(target) + " [*]"@
                + " | Ctrl+S save | Enter:save+exit | Esc cancel"@,
        ),
{
}

/// Saving and leaving writes what stands in the input to the file, as long as it is still there.
/// The editor is left, and the file counts as saved, exactly when it could be written; otherwise
/// it stays open with the text, and the status says why.
pub proof fn the_editor_is_left_once_the_text_is_saved(
    a: AppView,
    target: Seq<char>,
    dirty: bool,
    exists: bool,
    error: Option<Seq<char>>,
)
    requires
        a.mode == (ModeView::EditFile { target_path: target, dirty }),
    ensures
        exists ==> save_exit_step(a, exists) == StepView::Ask(
            RequestView::SaveExit { path: target, text: a.input_text },
        ) && save_exit_probed_state(a, exists) == a,
        !exists ==> save_exit_step(a, exists) == StepView::Done(ActionView::Nothing)
            && save_exit_probed_state(a, exists) == (AppView {
            status_message: Some("Original file no longer exists on disk"@),
            ..a
        }),
        error is None ==> save_exit_action(a, error) == (ActionView::Saved { path: target })
            && save_exit_state(a, error) == (AppView {
            mode: ModeView::Normal,
            status_message: None,
            ..a
        }),
        error matches Some(e) ==> save_exit_action(a, error) == ActionView::Nothing
            && save_exit_state(a, error) == (AppView {
            status_message: Some("Save failed: "@ + e),
            ..a
        }),
{
}

/// Where no file is edited, nothing is saved.
pub proof fn nothing_is_saved_outside_the_editor(
    a: AppView,
    exists: bool,
    ok: bool,
    error: Option<Seq<char>>,
)
    requires
        !(a.mode is EditFile),
    ensures
        save_step(a, exists) == StepView::Done(ActionView::Nothing),
        save_exit_step(a, exists) == StepView::Done(ActionView::Nothing),
        save_exit_action(a, error) == ActionView::Nothing,
        save_probed_state(a, exists) == a,
        save_exit_probed_state(a, exists) == a,
        save_exit_state(a, error) == a,
        saved_state(a, ok) == a,
{
}

} // verus!
