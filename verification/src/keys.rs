//! Events of the terminal, in whatever mode the interface is.
use vstd::prelude::*;

use crate::clock::Moment;
use crate::edit::{edit_state, edit_step, edits_text};
use crate::events::{
    idle, idle_step, ActionView, KeyCode, KeyEvent, MouseEventKind, RequestView, Step, StepView,
    Surroundings, TerminalEvent,
};
use crate::normal::{normal_ready, normal_state, normal_step, scrolled};
use crate::paths::path_join;
use crate::prompt::{prompt_of, prompt_ready, prompt_state, prompt_step, PromptKind};
use crate::select::{select_state, select_step};
use crate::state::{wf, App, AppMode, AppView, ModeView};
use crate::submit::input_filename;
use crate::text::{blank, boundary, opt_text};

verus! {

/// What a key does.
pub open spec fn key_state(a: AppView, key: KeyEvent) -> AppView {
    match a.mode {
        ModeView::Normal => normal_state(a, key),
        ModeView::Select { cursor_index } => select_state(a, cursor_index, key),
        ModeView::EditFile { .. } => edit_state(a, key),
        ModeView::Import(p) => prompt_state(a, PromptKind::Import, p, key),
        ModeView::AddInputDir(p) => prompt_state(a, PromptKind::AddInput, p, key),
        ModeView::AddOutputDir(p) => prompt_state(a, PromptKind::AddOutput, p, key),
    }
}

/// The step that a key leads to.
pub open spec fn key_step(
    a: AppView,
    key: KeyEvent,
    now: Moment,
    home: Option<Seq<char>>,
) -> StepView {
    match a.mode {
        ModeView::Normal => normal_step(a, key, now),
        ModeView::Select { cursor_index } => select_step(a, cursor_index, key),
        ModeView::EditFile { target_path, .. } => edit_step(target_path, key),
        ModeView::Import(p) => prompt_step(PromptKind::Import, p, key, home),
        ModeView::AddInputDir(p) => prompt_step(PromptKind::AddInput, p, key, home),
        ModeView::AddOutputDir(p) => prompt_step(PromptKind::AddOutput, p, key, home),
    }
}

/// The key finds the cursor where the text can be cut, and counters with room to grow.
pub open spec fn key_ready(a: AppView, key: KeyEvent) -> bool {
    match a.mode {
        ModeView::Normal => normal_ready(a, key),
        ModeView::Select { .. } => true,
        ModeView::EditFile { .. } => edits_text(key) ==> normal_ready(a, key),
        ModeView::Import(p) => prompt_ready(p, key),
        ModeView::AddInputDir(p) => prompt_ready(p, key),
        ModeView::AddOutputDir(p) => prompt_ready(p, key),
    }
}

/// What the mouse does: its wheel moves the chat log by three lines.
pub open spec fn mouse_state(a: AppView, kind: MouseEventKind) -> AppView {
    match kind {
        MouseEventKind::ScrollUp => scrolled(a, -3),
        MouseEventKind::ScrollDown => scrolled(a, 3),
        MouseEventKind::Other => a,
    }
}

/// The chat log can be moved down once more.
pub open spec fn mouse_ready(a: AppView, kind: MouseEventKind) -> bool {
    kind == MouseEventKind::ScrollDown ==> a.scroll_offset + 3 <= usize::MAX
}

/// What an event does; a key that is let go does nothing.
pub open spec fn event_state(a: AppView, event: TerminalEvent) -> AppView {
    match event {
        TerminalEvent::Key { pressed, key } => if pressed {
            key_state(a, key)
        } else {
            a
        },
        TerminalEvent::Mouse(kind) => mouse_state(a, kind),
        TerminalEvent::Other => a,
    }
}

/// The step that an event leads to.
pub open spec fn event_step(
    a: AppView,
    event: TerminalEvent,
    now: Moment,
    home: Option<Seq<char>>,
) -> StepView {
    match event {
        TerminalEvent::Key { pressed, key } => if pressed {
            key_step(a, key, now, home)
        } else {
            idle()
        },
        _ => idle(),
    }
}

/// The event can be dealt with.
pub open spec fn event_ready(a: AppView, event: TerminalEvent) -> bool {
    match event {
        TerminalEvent::Key { pressed, key } => pressed ==> key_ready(a, key),
        TerminalEvent::Mouse(kind) => mouse_ready(a, kind),
        TerminalEvent::Other => true,
    }
}

impl App {
    /// Deals with a key.
    pub fn handle_key(&mut self, key: KeyEvent, env: &Surroundings) -> (step: Step)
        requires
            wf(old(self)@),
            key_ready(old(self)@, key),
        ensures
            final(self)@ == key_state(old(self)@, key),
            wf(final(self)@),
            step@ == key_step(old(self)@, key, env.now@, opt_text(env.home)),
    {
        match &self.mode {
            AppMode::Normal => self.handle_key_normal(key, env.now),
            AppMode::Select { .. } => self.handle_key_select(key),
            AppMode::EditFile { .. } => self.handle_key_edit(key, env.now),
            AppMode::Import { .. } => self.handle_key_import(key, &env.home),
            AppMode::AddInputDir { .. } => self.handle_key_add_dir(key, true, &env.home),
            AppMode::AddOutputDir { .. } => self.handle_key_add_dir(key, false, &env.home),
        }
    }

    /// Whether a key can be dealt with.
    pub fn accepts(&self, key: KeyEvent) -> (b: bool)
        requires
            wf(self@),
        ensures
            b == key_ready(self@, key),
    {
        match &self.mode {
            AppMode::Normal => self.normal_accepts(key),
            AppMode::Select { .. } => true,
            AppMode::EditFile { .. } => {
                let edits = match key.code {
                    KeyCode::Esc => false,
                    KeyCode::Enter => false,
                    KeyCode::Char(c) => !(c == 's' && key.ctrl),
                    _ => true,
                };
                !edits || self.normal_accepts(key)
            },
            _ => self.prompt_accepts(key),
        }
    }

    /// Deals with what the mouse did.
    pub fn handle_mouse(&mut self, kind: MouseEventKind)
        requires
            wf(old(self)@),
            mouse_ready(old(self)@, kind),
        ensures
            final(self)@ == mouse_state(old(self)@, kind),
            wf(final(self)@),
    {
        match kind {
            MouseEventKind::ScrollUp => self.scroll_up(3),
            MouseEventKind::ScrollDown => self.scroll_down(3),
            MouseEventKind::Other => {},
        }
    }

    /// Deals with an event of the terminal.
    pub fn handle_event(&mut self, event: TerminalEvent, env: &Surroundings) -> (step: Step)
        requires
            wf(old(self)@),
            event_ready(old(self)@, event),
        ensures
            final(self)@ == event_state(old(self)@, event),
            wf(final(self)@),
            step@ == event_step(old(self)@, event, env.now@, opt_text(env.home)),
    {
        match event {
            TerminalEvent::Key { pressed, key } => {
                if pressed {
                    return self.handle_key(key, env);
                }
            },
            TerminalEvent::Mouse(kind) => self.handle_mouse(kind),
            TerminalEvent::Other => {},
        }
        idle_step()
    }

    /// Whether an event can be dealt with.
    pub fn accepts_event(&self, event: TerminalEvent) -> (b: bool)
        requires
            wf(self@),
        ensures
            b == event_ready(self@, event),
    {
        match event {
            TerminalEvent::Key { pressed, key } => !pressed || self.accepts(key),
            TerminalEvent::Mouse(MouseEventKind::ScrollDown) => self.scroll_offset <= usize::MAX
                - 3,
            _ => true,
        }
    }
}

/// Ctrl+C is the only event that ends the session, and it does so wherever text is typed; nothing
/// takes that back.
pub proof fn only_ctrl_c_quits(a: AppView, event: TerminalEvent)
    ensures
        event_state(a, event).should_quit <==> a.should_quit || {
            &&& a.mode is Normal || a.mode is EditFile
            &&& event matches TerminalEvent::Key { pressed, key } && pressed && key.ctrl
                && key.code == KeyCode::Char('c')
        },
{
}

/// Enter in normal mode hands over what is typed, as it is, unless it is blank; no other key
/// submits. Nothing counts as saved before it is written: a key by itself saves nothing, and
/// saving and leaving is asked for by Enter in the editor alone, for the file that it holds.
pub proof fn enter_submits_and_saves(
    a: AppView,
    key: KeyEvent,
    now: Moment,
    home: Option<Seq<char>>,
)
    ensures
        ({
            let step = key_step(a, key, now, home);
            let submits = a.mode is Normal && key.code == KeyCode::Enter && (key.ctrl
                || !a.multiline) && !blank(a.input_text);
            match step {
                StepView::Ask(RequestView::StoreInput(p)) => submits && p.message == a.input_text,
                StepView::Ask(RequestView::ProbeSaveExit { path }) => !submits && key.code
                    == KeyCode::Enter && a.mode is EditFile && a.mode->target_path == path,
                StepView::Ask(_) => !submits,
                StepView::Done(action) => !submits && action == ActionView::Nothing,
            }
        }),
{
}

/// Esc leads back to normal mode from every other mode, and asks for nothing.
pub proof fn escape_leads_back(a: AppView, key: KeyEvent, now: Moment, home: Option<Seq<char>>)
    requires
        key.code == KeyCode::Esc,
    ensures
        key_state(a, key).mode is Normal,
        key_step(a, key, now, home) == idle(),
{
}

/// Nothing but Enter and Ctrl+S, and Ctrl+D on a chosen message, asks for a file to be looked at
/// or touched; typing a path asks for no more than the paths that go on from it.
pub proof fn files_are_touched_on_request_only(
    a: AppView,
    key: KeyEvent,
    now: Moment,
    home: Option<Seq<char>>,
)
    requires
        key_step(a, key, now, home) is Ask,
    ensures
        ({
            ||| key.code == KeyCode::Enter
            ||| key.ctrl && (key.code == KeyCode::Char('s') || key.code == KeyCode::Char('d'))
            ||| prompt_of(a.mode) is Some && key_step(a, key, now, home)->Ask_0 is Complete
        }),
{
}

/// The timeline and the lists of directories are the same.
spec fn same_lists(a: AppView, b: AppView) -> bool {
    &&& a.messages == b.messages
    &&& a.input_dirs == b.input_dirs
    &&& a.output_dirs == b.output_dirs
    &&& a.system_dirs == b.system_dirs
}

proof fn lemma_typing_keeps_lists(a: AppView, key: KeyEvent)
    ensures
        same_lists(normal_state(a, key), a),
{
}

/// A key never takes effect on the timeline by itself: messages and directories come and go only
/// with what the file system answers.
pub proof fn keys_leave_the_timeline_alone(a: AppView, event: TerminalEvent)
    ensures
        event_state(a, event).messages == a.messages,
        event_state(a, event).input_dirs == a.input_dirs,
        event_state(a, event).output_dirs == a.output_dirs,
        event_state(a, event).system_dirs == a.system_dirs,
{
    match event {
        TerminalEvent::Key { pressed, key } => {
            lemma_typing_keeps_lists(a, key);
            match a.mode {
                ModeView::Select { cursor_index } => {
                    assert(same_lists(select_state(a, cursor_index, key), a));
                },
                _ => {
                    assert(same_lists(key_state(a, key), a));
                },
            }
        },
        _ => {},
    }
}

/// A key that is pressed does what it means in the mode at hand; one that is let go, and events
/// that mean nothing, do nothing.
pub proof fn keys_count_when_they_are_pressed(
    a: AppView,
    key: KeyEvent,
    now: Moment,
    home: Option<Seq<char>>,
)
    ensures
        event_state(a, TerminalEvent::Key { pressed: true, key }) == key_state(a, key),
        event_step(a, TerminalEvent::Key { pressed: true, key }, now, home) == key_step(
            a,
            key,
            now,
            home,
        ),
        event_state(a, TerminalEvent::Key { pressed: false, key }) == a,
        event_step(a, TerminalEvent::Key { pressed: false, key }, now, home) == StepView::Done(
            ActionView::Nothing,
        ),
        event_state(a, TerminalEvent::Other) == a,
        event_step(a, TerminalEvent::Other, now, home) == StepView::Done(ActionView::Nothing),
        event_ready(a, TerminalEvent::Key { pressed: false, key }),
        event_ready(a, TerminalEvent::Other),
{
}

/// The wheel of the mouse moves the chat log by three lines, up as far as its top, in every mode,
/// and nothing else; other events of the mouse do nothing.
pub proof fn the_wheel_moves_three_lines(a: AppView, now: Moment, home: Option<Seq<char>>)
    requires
        a.scroll_offset >= 0,
    ensures
        event_state(a, TerminalEvent::Mouse(MouseEventKind::ScrollDown)) == (AppView {
            scroll_offset: a.scroll_offset + 3,
            scroll_to_bottom: false,
            ..a
        }),
        event_state(a, TerminalEvent::Mouse(MouseEventKind::ScrollUp)) == (AppView {
            scroll_offset: if a.scroll_offset >= 3 {
                a.scroll_offset - 3
            } else {
                0
            },
            scroll_to_bottom: false,
            ..a
        }),
        event_state(a, TerminalEvent::Mouse(MouseEventKind::Other)) == a,
        forall|kind: MouseEventKind|
            #[trigger] event_step(a, TerminalEvent::Mouse(kind), now, home) == StepView::Done(
                ActionView::Nothing,
            ),
{
}

/// Each mode has its own keys: what a key does while a message is chosen, a file edited or a path
/// typed is what it does there, for the message, the file and the path at hand.
pub proof fn every_mode_has_its_own_keys(
    a: AppView,
    key: KeyEvent,
    now: Moment,
    home: Option<Seq<char>>,
)
    ensures
        a.mode is Normal ==> key_state(a, key) == normal_state(a, key) && key_step(
            a,
            key,
            now,
            home,
        ) == normal_step(a, key, now),
        a.mode matches ModeView::Select { cursor_index } ==> key_state(a, key) == select_state(
            a,
            cursor_index,
            key,
        ) && key_step(a, key, now, home) == select_step(a, cursor_index, key),
        a.mode matches ModeView::EditFile { target_path, dirty } ==> key_state(a, key)
            == edit_state(a, key) && key_step(a, key, now, home) == edit_step(target_path, key),
        a.mode matches ModeView::Import(p) ==> key_state(a, key) == prompt_state(
            a,
            PromptKind::Import,
            p,
            key,
        ) && key_step(a, key, now, home) == prompt_step(PromptKind::Import, p, key, home),
        a.mode matches ModeView::AddInputDir(p) ==> key_state(a, key) == prompt_state(
            a,
            PromptKind::AddInput,
            p,
            key,
        ) && key_step(a, key, now, home) == prompt_step(PromptKind::AddInput, p, key, home),
        a.mode matches ModeView::AddOutputDir(p) ==> key_state(a, key) == prompt_state(
            a,
            PromptKind::AddOutput,
            p,
            key,
        ) && key_step(a, key, now, home) == prompt_step(PromptKind::AddOutput, p, key, home),
{
}

/// What Enter hands over in normal mode has its file in the active input directory, named after
/// the time, wherever one is active.
pub proof fn submitted_messages_have_their_file(
    a: AppView,
    key: KeyEvent,
    now: Moment,
    home: Option<Seq<char>>,
    dir: Seq<char>,
)
    requires
        a.mode is Normal,
        key.code == KeyCode::Enter,
        key.ctrl || !a.multiline,
        !blank(a.input_text),
    ensures
        ({
            let step = key_step(a, key, now, home);
            &&& step is Ask
            &&& step->Ask_0 is StoreInput
            &&& step->Ask_0->StoreInput_0.message == a.input_text
            &&& step->Ask_0->StoreInput_0.filename == input_filename(now)
            &&& a.active_input_dir == Some(dir) ==> step->Ask_0->StoreInput_0.path == Some(
                path_join(dir, input_filename(now)),
            )
            &&& a.active_input_dir is None ==> step->Ask_0->StoreInput_0.path is None
        }),
{
}

/// Wherever the cursor stands between two characters, or at an end, characters can be typed, and
/// wherever the counters have room, every other key that needs it can be dealt with; choosing
/// takes every key.
pub proof fn keys_can_be_dealt_with(a: AppView, key: KeyEvent)
    requires
        wf(a),
        a.scroll_offset + 10 <= usize::MAX,
        a.history.len() < isize::MAX,
        boundary(a.input_text, a.input_cursor),
        key.code != KeyCode::Backspace,
        prompt_of(a.mode) matches Some((_, p)) ==> boundary(p.buffer, p.cursor),
    ensures
        key_ready(a, key),
        a.mode is Select ==> forall|k: KeyEvent| #[trigger] key_ready(a, k),
{
}

} // verus!
