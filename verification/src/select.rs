//! Keys while a message of the timeline is chosen.
use vstd::prelude::*;

use crate::events::{
    idle, idle_step, ActionView, KeyCode, KeyEvent, Request, RequestView, Step, StepView,
};
use crate::paths::{is_same_path, quote, quoted, same_path};
use crate::state::{message_views, wf, with_status, App, AppMode, AppView, ModeView};
use crate::submit::{heights, inline_path};
use crate::text::{byte_len, chain, chain3, opt_text, text_len};

verus! {

/// The state with the cursor on another message.
pub open spec fn pointing_at(a: AppView, index: int) -> AppView {
    AppView { mode: ModeView::Select { cursor_index: index }, ..a }
}

/// The index of the last message, or zero.
pub open spec fn last_index(a: AppView) -> int {
    if a.messages.len() > 0 {
        a.messages.len() - 1
    } else {
        0
    }
}

/// No file holds the message: it was typed in, and could not be written.
pub open spec fn typed_inline(filepath: Seq<char>) -> bool {
    same_path(filepath, inline_path())
}

pub open spec fn is_up(code: KeyCode) -> bool {
    code == KeyCode::Up || code == KeyCode::Char('k') || code == KeyCode::Char('K')
}

pub open spec fn is_down(code: KeyCode) -> bool {
    code == KeyCode::Down || code == KeyCode::Char('j') || code == KeyCode::Char('J')
}

/// The key that deletes the file of the chosen message.
pub open spec fn is_delete(key: KeyEvent) -> bool {
    key.code == KeyCode::Char('d') && key.ctrl
}

/// What a key does while the message at `ci` is chosen.
pub open spec fn select_state(a: AppView, ci: int, key: KeyEvent) -> AppView {
    if key.code == KeyCode::Esc {
        AppView { mode: ModeView::Normal, status_message: None, ..a }
    } else if is_up(key.code) {
        if ci > 0 {
            pointing_at(a, ci - 1)
        } else {
            a
        }
    } else if is_down(key.code) {
        if ci + 1 < a.messages.len() {
            pointing_at(a, ci + 1)
        } else {
            a
        }
    } else if key.code == KeyCode::PageUp {
        pointing_at(
            a,
            if ci > 10 {
                ci - 10
            } else {
                0
            },
        )
    } else if key.code == KeyCode::PageDown {
        pointing_at(
            a,
            if ci + 10 < last_index(a) {
                ci + 10
            } else {
                last_index(a)
            },
        )
    } else if ci < a.messages.len() && typed_inline(a.messages[ci].filepath) {
        if is_delete(key) {
            with_status(a, "Cannot delete: message was typed inline (no file)"@)
        } else if key.code == KeyCode::Enter {
            with_status(a, "Cannot edit: message was typed inline (no file)"@)
        } else {
            a
        }
    } else {
        a
    }
}

/// The step that a key leads to while the message at `ci` is chosen: before its file is deleted
/// or opened, it has to be there.
pub open spec fn select_step(a: AppView, ci: int, key: KeyEvent) -> StepView {
    if ci < a.messages.len() && !typed_inline(a.messages[ci].filepath) {
        if is_delete(key) {
            StepView::Ask(RequestView::ProbeDelete { path: a.messages[ci].filepath })
        } else if key.code == KeyCode::Enter {
            StepView::Ask(RequestView::ProbeEdit { path: a.messages[ci].filepath })
        } else {
            idle()
        }
    } else {
        idle()
    }
}

/// The message at `ci` leaves the timeline.
pub open spec fn without_message(a: AppView, ci: int) -> AppView {
    let rest = a.messages.remove(ci);
    AppView { messages: rest, message_line_offsets: heights(rest), ..a }
}

/// What is known about the file to delete: when it exists, its message leaves the timeline.
pub open spec fn delete_probed_state(a: AppView, exists: bool) -> AppView {
    match a.mode {
        ModeView::Select { cursor_index } => if !exists {
            with_status(a, "Cannot delete: file does not exist on disk"@)
        } else if cursor_index < a.messages.len() {
            without_message(a, cursor_index)
        } else {
            a
        },
        _ => a,
    }
}

/// The step that follows: the file of the message that left is deleted.
pub open spec fn delete_step(a: AppView, path: Seq<char>, exists: bool) -> StepView {
    match a.mode {
        ModeView::Select { cursor_index } if exists && cursor_index < a.messages.len() =>
            StepView::Ask(RequestView::Delete { path }),
        _ => idle(),
    }
}

/// What is known about the file to edit.
pub open spec fn edit_probed_state(a: AppView, exists: bool) -> AppView {
    if exists {
        a
    } else {
        with_status(a, "Cannot edit: file does not exist on disk"@)
    }
}

/// The step that follows: a file that exists is read.
pub open spec fn edit_probed_step(path: Seq<char>, exists: bool) -> StepView {
    if exists {
        StepView::Ask(RequestView::ReadEdit { path })
    } else {
        idle()
    }
}

/// The cursor stays on a message as long as there is one.
pub open spec fn cursor_kept(a: AppView) -> AppView {
    match a.mode {
        ModeView::Select { cursor_index } => if cursor_index > last_index(a) {
            pointing_at(a, last_index(a))
        } else {
            a
        },
        _ => a,
    }
}

/// What deleting came to.
pub open spec fn deleted_state(a: AppView, path: Seq<char>, error: Option<Seq<char>>) -> AppView {
    cursor_kept(
        with_status(
            a,
            match error {
                Some(e) => "Delete failed: "@ + e,
                None => "Deleted: "@ + quoted(path),
            },
        ),
    )
}

/// The file is open in the input box.
pub open spec fn opened(a: AppView, path: Seq<char>, content: Seq<char>) -> AppView {
    AppView {
        input_text: content,
        input_cursor: byte_len(content) as int,
        mode: ModeView::EditFile { target_path: path, dirty: false },
        status_message: Some(
            "Editing: "@ + quoted(path)
                + " | Ctrl+S save | Ctrl+Enter save+exit | Esc cancel"@,
        ),
        ..a
    }
}

/// What opening came to; a file that cannot be read as text stays closed.
pub open spec fn opened_state(a: AppView, path: Seq<char>, content: Option<Seq<char>>) -> AppView {
    match content {
        Some(text) => opened(a, path, text),
        None => with_status(a, "Cannot edit: file is not a text file or cannot be read"@),
    }
}

impl App {
    /// Deals with a key while a message is chosen.
    pub fn handle_key_select(&mut self, key: KeyEvent) -> (step: Step)
        requires
            wf(old(self)@),
        ensures
            match old(self)@.mode {
                ModeView::Select { cursor_index } => {
                    &&& final(self)@ == select_state(old(self)@, cursor_index, key)
                    &&& step@ == select_step(old(self)@, cursor_index, key)
                },
                _ => final(self)@ == old(self)@ && step@ == idle(),
            },
            wf(final(self)@),
    {
        let cursor_index: usize = match &self.mode {
            AppMode::Select { cursor_index } => *cursor_index,
            _ => {
                return idle_step();
            },
        };
        let count = self.messages.len();
        match key.code {
            KeyCode::Esc => {
                self.mode = AppMode::Normal;
                self.status_message = None;
            },
            KeyCode::Up | KeyCode::Char('k') | KeyCode::Char('K') => {
                if cursor_index > 0 {
                    self.mode = AppMode::Select { cursor_index: cursor_index - 1 };
                }
            },
            KeyCode::Down | KeyCode::Char('j') | KeyCode::Char('J') => {
                if count > 0 && cursor_index < count - 1 {
                    self.mode = AppMode::Select { cursor_index: cursor_index + 1 };
                }
            },
            KeyCode::PageUp => {
                self.mode = AppMode::Select { cursor_index: cursor_index.saturating_sub(10) };
            },
            KeyCode::PageDown => {
                let max = count.saturating_sub(1);
                let next = cursor_index.saturating_add(10);
                self.mode = AppMode::Select {
                    cursor_index: if next < max {
                        next
                    } else {
                        max
                    },
                };
            },
            KeyCode::Char('d') => {
                if key.ctrl && cursor_index < count {
                    let path = self.messages[cursor_index].filepath.clone();
                    if is_same_path(path.as_str(), "user-input") {
                        self.set_status(
                            "Cannot delete: message was typed inline (no file)".to_owned(),
                        );
                    } else {
                        return Step::Ask(Request::ProbeDelete { path });
                    }
                }
            },
            KeyCode::Enter => {
                if cursor_index < count {
                    let path = self.messages[cursor_index].filepath.clone();
                    if is_same_path(path.as_str(), "user-input") {
                        self.set_status(
                            "Cannot edit: message was typed inline (no file)".to_owned(),
                        );
                    } else {
                        return Step::Ask(Request::ProbeEdit { path });
                    }
                }
            },
            _ => {},
        }
        idle_step()
    }

    /// Goes on with deleting once it is known whether the file exists.
    pub fn delete_probed(&mut self, path: String, exists: bool) -> (step: Step)
        requires
            wf(old(self)@),
        ensures
            final(self)@ == delete_probed_state(old(self)@, exists),
            wf(final(self)@),
            step@ == delete_step(old(self)@, path@, exists),
    {
        let cursor_index: usize = match &self.mode {
            AppMode::Select { cursor_index } => *cursor_index,
            _ => {
                return idle_step();
            },
        };
        if !exists {
            self.set_status("Cannot delete: file does not exist on disk".to_owned());
            return idle_step();
        }
        if cursor_index < self.messages.len() {
            let ghost all = self.messages@;
            self.messages.remove(cursor_index);
            assert(message_views(self.messages@) =~= message_views(all).remove(
                cursor_index as int,
            ));
            self.recalculate_line_offsets();
            return Step::Ask(Request::Delete { path });
        }
        idle_step()
    }

    /// Tells what deleting came to: the error, if there was one.
    pub fn file_deleted(&mut self, path: String, error: Option<String>)
        requires
            wf(old(self)@),
        ensures
            final(self)@ == deleted_state(old(self)@, path@, opt_text(error)),
            wf(final(self)@),
    {
        let status = match &error {
            Some(e) => chain("Delete failed: ", e.as_str()),
            None => chain("Deleted: ", quote(path.as_str()).as_str()),
        };
        self.set_status(status);
        let max = self.messages.len().saturating_sub(1);
        let beyond = match &self.mode {
            AppMode::Select { cursor_index } => *cursor_index > max,
            _ => false,
        };
        if beyond {
            self.mode = AppMode::Select { cursor_index: max };
        }
    }

    /// Goes on with opening once it is known whether the file exists.
    pub fn edit_probed(&mut self, path: String, exists: bool) -> (step: Step)
        requires
            wf(old(self)@),
        ensures
            final(self)@ == edit_probed_state(old(self)@, exists),
            wf(final(self)@),
            step@ == edit_probed_step(path@, exists),
    {
        if exists {
            Step::Ask(Request::ReadEdit { path })
        } else {
            self.set_status("Cannot edit: file does not exist on disk".to_owned());
            idle_step()
        }
    }

    /// Takes the content of the file to edit, when it could be read as text.
    pub fn edit_opened(&mut self, path: String, content: Option<String>)
        requires
            wf(old(self)@),
        ensures
            final(self)@ == opened_state(old(self)@, path@, opt_text(content)),
            wf(final(self)@),
    {
        match content {
            Some(text) => {
                self.input_cursor = text_len(text.as_str());
                self.input_text = text;
                self.set_status(
                    chain3(
                        "Editing: ",
                        quote(path.as_str()).as_str(),
                        " | Ctrl+S save | Ctrl+Enter save+exit | Esc cancel",
                    ),
                );
                self.mode = AppMode::EditFile { target_path: path, dirty: false };
            },
            None => {
                self.set_status(
                    "Cannot edit: file is not a text file or cannot be read".to_owned(),
                );
            },
        }
    }
}

/// Choosing never touches what is typed, the history or the directories, and asks for no work
/// but to see whether the file of the chosen message is there.
pub proof fn choosing_leaves_the_input_alone(a: AppView, ci: int, key: KeyEvent)
    requires
        0 <= ci,
    ensures
        ({
            let b = select_state(a, ci, key);
            &&& b.input_text == a.input_text && b.input_cursor == a.input_cursor
            &&& b.history == a.history && b.history_index == a.history_index
            &&& b.messages == a.messages
            &&& b.input_dirs == a.input_dirs && b.output_dirs == a.output_dirs
            &&& b.active_input_dir == a.active_input_dir
            &&& b.active_output_dir == a.active_output_dir
            &&& b.should_quit == a.should_quit
        }),
        match select_step(a, ci, key) {
            StepView::Done(_) => select_step(a, ci, key) == idle(),
            StepView::Ask(RequestView::ProbeDelete { path }) => ci < a.messages.len() && path
                == a.messages[ci].filepath,
            StepView::Ask(RequestView::ProbeEdit { path }) => ci < a.messages.len() && path
                == a.messages[ci].filepath,
            _ => false,
        },
{
}

/// The cursor never points past the last message, whatever key moves it: on a message it stays on
/// one.
pub proof fn cursor_stays_on_a_message(a: AppView, ci: int, key: KeyEvent)
    requires
        0 <= ci <= last_index(a),
        a.mode == (ModeView::Select { cursor_index: ci }),
    ensures
        select_state(a, ci, key).mode matches ModeView::Select { cursor_index } ==> 0
            <= cursor_index <= last_index(select_state(a, ci, key)),
        a.messages.len() > 0 ==> (select_state(a, ci, key).mode matches ModeView::Select {
            cursor_index,
        } ==> 0 <= cursor_index < a.messages.len()),
{
}

/// The cursor does not point past the last message after a deletion either, whether the file was
/// there or not, and whatever deleting it came to.
pub proof fn cursor_survives_deletion(
    a: AppView,
    ci: int,
    exists: bool,
    path: Seq<char>,
    error: Option<Seq<char>>,
)
    requires
        0 <= ci <= last_index(a),
        a.mode == (ModeView::Select { cursor_index: ci }),
    ensures
        ({
            let b = delete_probed_state(a, exists);
            let c = deleted_state(b, path, error);
            &&& !exists ==> b.mode == a.mode && b.messages == a.messages
            &&& c.messages == b.messages
            &&& c.mode is Select
            &&& 0 <= c.mode->cursor_index <= last_index(c)
            &&& c.messages.len() > 0 ==> c.mode->cursor_index < c.messages.len()
        }),
{
}

/// Only the chosen message leaves the timeline when its file is deleted, and the others keep
/// their order; a file that is not there leaves the timeline as it is.
pub proof fn deletion_takes_only_the_chosen_message(a: AppView, exists: bool)
    requires
        a.mode is Select,
        0 <= a.mode->cursor_index < a.messages.len(),
    ensures
        ({
            let ci = a.mode->cursor_index;
            let ms = delete_probed_state(a, exists).messages;
            if exists {
                ms == a.messages.take(ci) + a.messages.skip(ci + 1)
            } else {
                ms == a.messages
            }
        }),
{
    let ci = a.mode->cursor_index;
    if exists {
        assert(delete_probed_state(a, exists).messages =~= a.messages.take(ci)
            + a.messages.skip(ci + 1));
    }
}

/// Up goes to the message before and Down to the one behind, Page Up and Page Down ten further;
/// all stop at the ends of the timeline. `k` and `j`, small or capital, are Up and Down. Moving
/// changes nothing but the cursor.
pub proof fn keys_move_the_choice(a: AppView, ci: int, key: KeyEvent)
    requires
        0 <= ci <= last_index(a),
        a.mode == (ModeView::Select { cursor_index: ci }),
    ensures
        ({
            let b = select_state(a, ci, key);
            let up = key.code == KeyCode::Up || key.code == KeyCode::Char('k') || key.code
                == KeyCode::Char('K');
            let down = key.code == KeyCode::Down || key.code == KeyCode::Char('j') || key.code
                == KeyCode::Char('J');
            let by: int = if up {
                -1
            } else if down {
                1
            } else if key.code == KeyCode::PageUp {
                -10
            } else if key.code == KeyCode::PageDown {
                10
            } else {
                0
            };
            let last: int = if a.messages.len() > 0 {
                a.messages.len() - 1
            } else {
                0
            };
            let to = if ci + by < 0 {
                0
            } else if ci + by > last {
                last
            } else {
                ci + by
            };
            by != 0 ==> b == (AppView { mode: ModeView::Select { cursor_index: to }, ..a })
        }),
{
}

/// Down and Up undo each other where there is a message to go to, and so do the pages.
pub proof fn moves_of_the_choice_undo_each_other(a: AppView, ci: int, there: KeyEvent, back: KeyEvent)
    requires
        0 <= ci,
        a.mode == (ModeView::Select { cursor_index: ci }),
        there.code == KeyCode::Down && back.code == KeyCode::Up && ci + 1 < a.messages.len()
            || there.code == KeyCode::PageDown && back.code == KeyCode::PageUp && ci + 10
            < a.messages.len(),
    ensures
        ({
            let b = select_state(a, ci, there);
            &&& b.mode is Select
            &&& b.mode->cursor_index > ci
            &&& select_state(b, b.mode->cursor_index, back) == a
        }),
{
    let b = select_state(a, ci, there);
    assert(select_state(b, b.mode->cursor_index, back).mode == a.mode);
}

/// Esc goes back to typing and clears the status; keys without a meaning do nothing.
pub proof fn other_keys_do_not_choose(a: AppView, ci: int, key: KeyEvent)
    ensures
        key.code == KeyCode::Esc ==> select_state(a, ci, key) == (AppView {
            mode: ModeView::Normal,
            status_message: None,
            ..a
        }),
        ({
            ||| key.code == KeyCode::Tab
            ||| key.code == KeyCode::Left
            ||| key.code == KeyCode::Right
            ||| key.code == KeyCode::Backspace
            ||| key.code == KeyCode::Delete
            ||| key.code == KeyCode::End
            ||| key.code == KeyCode::Other
            ||| key.code == KeyCode::Char('d') && !key.ctrl
            ||| key.code is Char && key.code->Char_0 != 'd' && key.code->Char_0 != 'j'
                && key.code->Char_0 != 'J' && key.code->Char_0 != 'k' && key.code->Char_0 != 'K'
        }) ==> select_state(a, ci, key) == a && select_step(a, ci, key) == StepView::Done(
            ActionView::Nothing,
        ),
{
}

/// Ctrl+D on a message asks whether its file is there to be deleted, and Enter whether it is there
/// to be edited. A message that was only typed in has no file: the status says so, and nothing is
/// asked. Without a message nothing happens.
pub proof fn chosen_files_are_asked_for(a: AppView, ci: int, key: KeyEvent)
    requires
        key.code == KeyCode::Enter || key.code == KeyCode::Char('d') && key.ctrl,
        ci >= 0,
    ensures
        ci < a.messages.len() && !same_path(a.messages[ci].filepath, "user-input"@)
            ==> select_state(a, ci, key) == a && select_step(a, ci, key) == StepView::Ask(
            if key.code == KeyCode::Enter {
                RequestView::ProbeEdit { path: a.messages[ci].filepath }
            } else {
                RequestView::ProbeDelete { path: a.messages[ci].filepath }
            },
        ),
        ci < a.messages.len() && same_path(a.messages[ci].filepath, "user-input"@)
            ==> select_step(a, ci, key) == StepView::Done(ActionView::Nothing) && select_state(
            a,
            ci,
            key,
        ) == (AppView {
            status_message: Some(
                if key.code == KeyCode::Enter {
                    "Cannot edit: message was typed inline (no file)"@
                } else {
                    "Cannot delete: message was typed inline (no file)"@
                },
            ),
            ..a
        }),
        ci >= a.messages.len() ==> select_state(a, ci, key) == a && select_step(a, ci, key)
            == StepView::Done(ActionView::Nothing),
{
}

/// A file that is there is deleted, and its message leaves the timeline first, the others staying
/// in their places; of a file that is not there nothing is deleted, and the status says so. The
/// heights on record stay those of the messages, and all else stays.
pub proof fn files_that_are_there_are_deleted(a: AppView, ci: int, path: Seq<char>, exists: bool)
    requires
        a.mode == (ModeView::Select { cursor_index: ci }),
        0 <= ci < a.messages.len(),
    ensures
        ({
            let b = delete_probed_state(a, exists);
            &&& exists ==> {
                &&& delete_step(a, path, exists) == StepView::Ask(RequestView::Delete { path })
                &&& b.messages.len() == a.messages.len() - 1
                &&& forall|i: int| 0 <= i < ci ==> b.messages[i] == a.messages[i]
                &&& forall|i: int| ci <= i < b.messages.len() ==> b.messages[i] == a.messages[i + 1]
                &&& b.message_line_offsets == heights(b.messages)
                &&& b == AppView {
                    messages: b.messages,
                    message_line_offsets: b.message_line_offsets,
                    ..a
                }
            }
            &&& !exists ==> {
                &&& delete_step(a, path, exists) == StepView::Done(ActionView::Nothing)
                &&& b == AppView {
                    status_message: Some("Cannot delete: file does not exist on disk"@),
                    ..a
                }
            }
        }),
{
}

/// What deleting came to is told in the status: the path, or the error. The choice stays where it
/// is while there is a message, and goes to the last one otherwise.
pub proof fn deletions_are_told(a: AppView, ci: int, path: Seq<char>, error: Option<Seq<char>>)
    requires
        a.mode == (ModeView::Select { cursor_index: ci }),
        ci >= 0,
    ensures
        ({
            let b = deleted_state(a, path, error);
            &&& error is None ==> b.status_message == Some("Deleted: "@ + quoted(path))
            &&& error matches Some(e) ==> b.status_message == Some("Delete failed: "@ + e)
            &&& ci < a.messages.len() ==> b.mode == a.mode
            &&& ci >= a.messages.len() && a.messages.len() > 0 ==> b.mode == (ModeView::Select {
                cursor_index: a.messages.len() - 1,
            })
            &&& a.messages.len() == 0 ==> b.mode == (ModeView::Select { cursor_index: 0 })
            &&& b == AppView { mode: b.mode, status_message: b.status_message, ..a }
        }),
{
}

/// A file that is there is read to be edited; one that is not, and one that cannot be read as
/// text, leave all but the status as it was. What is read is opened, clean and with the cursor at
/// its end, and all that is not of the input stays.
pub proof fn files_that_can_be_read_are_opened(
    a: AppView,
    path: Seq<char>,
    exists: bool,
    content: Option<Seq<char>>,
)
    ensures
        exists ==> edit_probed_state(a, exists) == a && edit_probed_step(path, exists)
            == StepView::Ask(RequestView::ReadEdit { path }),
        !exists ==> edit_probed_state(a, exists) == (AppView {
            status_message: Some("Cannot edit: file does not exist on disk"@),
            ..a
        }) && edit_probed_step(path, exists) == StepView::Done(ActionView::Nothing),
        content is None ==> opened_state(a, path, content) == (AppView {
            status_message: Some("Cannot edit: file is not a text file or cannot be read"@),
            ..a
        }),
        content matches Some(text) ==> {
            let b = opened_state(a, path, content);
            &&& b.input_text == text
            &&& b.input_cursor == byte_len(text)
            &&& b.mode == (ModeView::EditFile { target_path: path, dirty: false })
            &&& b.status_message == Some(
                "Editing: "@ + quoted(path)
                    + " | Ctrl+S save | Ctrl+Enter save+exit | Esc cancel"@,
            )
            &&& b == AppView {
                input_text: b.input_text,
                input_cursor: b.input_cursor,
                mode: b.mode,
                status_message: b.status_message,
                ..a
            }
        },
{
}

/// A choice behind the last message is led back: Up goes to the one before, Page Down to the last
/// message, and Down stays; where no message is chosen, nothing is deleted.
pub proof fn a_choice_behind_the_end_is_led_back(a: AppView, ci: int, key: KeyEvent, exists: bool)
    requires
        ci >= a.messages.len(),
        ci > 0,
        a.mode == (ModeView::Select { cursor_index: ci }),
    ensures
        is_up(key.code) ==> select_state(a, ci, key) == (AppView {
            mode: ModeView::Select { cursor_index: ci - 1 },
            ..a
        }),
        is_down(key.code) ==> select_state(a, ci, key) == a,
        key.code == KeyCode::PageDown ==> select_state(a, ci, key) == (AppView {
            mode: ModeView::Select {
                cursor_index: if a.messages.len() > 0 {
                    a.messages.len() - 1
                } else {
                    0
                },
            },
            ..a
        }),
        exists ==> delete_probed_state(a, exists) == a,
{
}

/// Outside select mode nothing is deleted, and no choice is made.
pub proof fn nothing_is_deleted_outside_select_mode(
    a: AppView,
    path: Seq<char>,
    exists: bool,
    error: Option<Seq<char>>,
)
    requires
        !(a.mode is Select),
    ensures
        delete_probed_state(a, exists) == a,
        delete_step(a, path, exists) == StepView::Done(ActionView::Nothing),
        deleted_state(a, path, error).messages == a.messages,
        deleted_state(a, path, error).mode == a.mode,
{
}

} // verus!
