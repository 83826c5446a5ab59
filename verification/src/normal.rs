//! Keys while a message is typed.
use vstd::prelude::*;

use crate::clock::Moment;
use crate::events::{idle, idle_step, KeyCode, KeyEvent, Request, RequestView, Step, StepView};
use crate::paths::{
    all_different, find_dir, first_place, lists, name_or_empty, place_of, quote, quoted, same_path,
    shown_name,
};
use crate::state::{wf, App, AppMode, AppView, ModeView, PromptView};
use crate::submit::{pending, submitted, submitting};
use crate::text::{
    ascii, blank, boundary, byte_len, chars_before, chain, is_blank, lemma_ascii_offsets,
    lemma_byte_len_at_least, lemma_byte_len_concat, lemma_byte_len_take, lemma_chars_before, on_boundary, text_len,
    texts,
};

verus! {

/// A character put in at the cursor; the cursor moves on by one byte.
pub open spec fn typed(a: AppView, c: char) -> AppView {
    AppView {
        input_text: a.input_text.insert(chars_before(a.input_text, a.input_cursor), c),
        input_cursor: a.input_cursor + 1,
        ..a
    }
}

/// The character that starts one byte before the cursor taken out, and the cursor there.
pub open spec fn erased_before(a: AppView) -> AppView {
    if a.input_cursor > 0 {
        AppView {
            input_text: a.input_text.remove(chars_before(a.input_text, a.input_cursor - 1)),
            input_cursor: a.input_cursor - 1,
            ..a
        }
    } else {
        a
    }
}

/// The character at the cursor taken out.
pub open spec fn erased_at(a: AppView) -> AppView {
    if a.input_cursor < byte_len(a.input_text) {
        AppView {
            input_text: a.input_text.remove(chars_before(a.input_text, a.input_cursor)),
            ..a
        }
    } else {
        a
    }
}

/// The entry of the history that `index` steps back lead to: 0 is the latest.
pub open spec fn recalled(a: AppView, index: int) -> AppView {
    let entry = a.history[a.history.len() - 1 - index];
    AppView {
        history_index: index,
        input_text: entry,
        input_cursor: byte_len(entry) as int,
        ..a
    }
}

/// One step back in the history, as far as it reaches.
pub open spec fn history_back(a: AppView) -> AppView {
    if a.history_index < a.history.len() - 1 {
        recalled(a, a.history_index + 1)
    } else {
        a
    }
}

/// One step forward in the history; behind the latest entry the input is empty.
pub open spec fn history_forward(a: AppView) -> AppView {
    if a.history_index > 0 {
        recalled(a, a.history_index - 1)
    } else if a.history_index == 0 {
        AppView { history_index: -1, input_text: Seq::empty(), input_cursor: 0, ..a }
    } else {
        a
    }
}

/// The chat log moved by some lines; it stops at the top, and no longer keeps to the bottom.
pub open spec fn scrolled(a: AppView, by: int) -> AppView {
    AppView {
        scroll_offset: if a.scroll_offset + by < 0 {
            0
        } else {
            a.scroll_offset + by
        },
        scroll_to_bottom: false,
        ..a
    }
}

/// The directory behind the active one, and the first behind the last.
pub open spec fn next_dir(dirs: Seq<Seq<char>>, active: Option<Seq<char>>) -> Seq<char> {
    let current = match active {
        Some(dir) => place_of(dirs, dir),
        None => 0,
    };
    dirs[(current + 1) % (dirs.len() as int)]
}

/// The next input directory becomes the active one.
pub open spec fn input_rotated(a: AppView) -> AppView {
    if a.input_dirs.len() == 0 {
        a
    } else {
        let next = next_dir(a.input_dirs, a.active_input_dir);
        AppView {
            active_input_dir: Some(next),
            status_message: Some("Active input: "@ + quoted(shown_name(next))),
            ..a
        }
    }
}

/// The next output directory becomes the active one.
pub open spec fn output_rotated(a: AppView) -> AppView {
    if a.output_dirs.len() == 0 {
        a
    } else {
        let next = next_dir(a.output_dirs, a.active_output_dir);
        AppView {
            active_output_dir: Some(next),
            status_message: Some("Active output: "@ + quoted(shown_name(next))),
            ..a
        }
    }
}

/// A prompt with nothing typed yet.
pub open spec fn empty_prompt() -> PromptView {
    PromptView { buffer: Seq::empty(), cursor: 0, completions: Seq::empty(), completion_index: 0 }
}

/// `j` and `k` scroll the chat log in normal mode as long as nothing is typed.
pub open spec fn scrolls_by_letter(a: AppView, key: KeyEvent) -> bool {
    &&& a.mode is Normal
    &&& a.input_text.len() == 0
    &&& !key.ctrl && !key.alt
    &&& key.code == KeyCode::Char('j') || key.code == KeyCode::Char('k')
}

/// What a character key does.
pub open spec fn char_key(a: AppView, c: char, key: KeyEvent) -> AppView {
    if scrolls_by_letter(a, key) {
        scrolled(
            a,
            if c == 'j' {
                1
            } else {
                -1
            },
        )
    } else if key.ctrl && c == 'c' {
        AppView { should_quit: true, ..a }
    } else if key.ctrl && c == 'j' {
        AppView { multiline: false, ..typed(a, '\n') }
    } else if key.ctrl && c == 'r' {
        input_rotated(a)
    } else if key.ctrl && c == 'o' {
        output_rotated(a)
    } else if key.ctrl && c == 'f' {
        AppView { mode: ModeView::Import(empty_prompt()), status_message: None, ..a }
    } else if key.alt && c == 'i' {
        AppView {
            mode: ModeView::AddInputDir(empty_prompt()),
            status_message: Some("Add input directory (Enter: add | Tab: cycle | Esc cancel)"@),
            ..a
        }
    } else if key.alt && c == 'o' {
        AppView {
            mode: ModeView::AddOutputDir(empty_prompt()),
            status_message: Some("Add output directory (Enter: add | Tab: cycle | Esc cancel)"@),
            ..a
        }
    } else {
        AppView { status_message: None, ..typed(a, c) }
    }
}

/// The last message is the one that select mode starts at.
pub open spec fn selecting(a: AppView) -> AppView {
    AppView {
        mode: ModeView::Select {
            cursor_index: if a.messages.len() > 0 {
                a.messages.len() - 1
            } else {
                0
            },
        },
        status_message: Some("Select mode: ↑/↓ navigate | Enter edit | Esc cancel"@),
        ..a
    }
}

/// What a key does while a message is typed.
pub open spec fn normal_state(a: AppView, key: KeyEvent) -> AppView {
    match key.code {
        KeyCode::Char(c) => char_key(a, c, key),
        KeyCode::Enter => if key.ctrl || !a.multiline {
            submitting(a)
        } else {
            a
        },
        KeyCode::Up => if key.ctrl {
            history_back(a)
        } else {
            scrolled(a, -1)
        },
        KeyCode::Down => if key.ctrl {
            history_forward(a)
        } else {
            scrolled(a, 1)
        },
        KeyCode::Tab => selecting(a),
        KeyCode::Backspace => erased_before(AppView { status_message: None, ..a }),
        KeyCode::Delete => erased_at(AppView { status_message: None, ..a }),
        KeyCode::Left => if a.input_cursor > 0 {
            AppView { input_cursor: a.input_cursor - 1, ..a }
        } else {
            a
        },
        KeyCode::Right => if a.input_cursor < byte_len(a.input_text) {
            AppView { input_cursor: a.input_cursor + 1, ..a }
        } else {
            a
        },
        KeyCode::PageUp => scrolled(a, -10),
        KeyCode::PageDown => scrolled(a, 10),
        KeyCode::End => AppView { scroll_to_bottom: true, ..a },
        KeyCode::Esc => a,
        KeyCode::Other => a,
    }
}

/// The step that a key leads to while a message is typed: Enter hands the message over.
pub open spec fn normal_step(a: AppView, key: KeyEvent, now: Moment) -> StepView {
    if key.code == KeyCode::Enter && (key.ctrl || !a.multiline) {
        match pending(a, now) {
            Some(p) => StepView::Ask(RequestView::StoreInput(p)),
            None => idle(),
        }
    } else {
        idle()
    }
}

/// The character key goes into the text.
pub open spec fn types_into_text(c: char, key: KeyEvent) -> bool {
    &&& !(key.ctrl && (c == 'c' || c == 'r' || c == 'o' || c == 'f'))
    &&& !(key.alt && (c == 'i' || c == 'o'))
}

/// The key finds the cursor where the text can be cut, and counters with room to grow.
pub open spec fn normal_ready(a: AppView, key: KeyEvent) -> bool {
    match key.code {
        KeyCode::Char(c) => if scrolls_by_letter(a, key) {
            c == 'j' ==> a.scroll_offset < usize::MAX
        } else {
            types_into_text(c, key) ==> boundary(a.input_text, a.input_cursor)
        },
        KeyCode::Enter => blank(a.input_text) || a.history.len() < isize::MAX,
        KeyCode::Down => key.ctrl || a.scroll_offset < usize::MAX,
        KeyCode::Backspace => a.input_cursor > 0 ==> boundary(a.input_text, a.input_cursor - 1),
        KeyCode::Delete => a.input_cursor < byte_len(a.input_text) ==> boundary(
            a.input_text,
            a.input_cursor,
        ),
        KeyCode::PageDown => a.scroll_offset + 10 <= usize::MAX,
        _ => true,
    }
}

/// Putting in a character makes the text longer by its bytes.
pub proof fn lemma_insert_bytes(s: Seq<char>, k: int, c: char)
    requires
        0 <= k <= s.len(),
    ensures
        byte_len(s.insert(k, c)) == byte_len(s) + byte_len(seq![c]),
        byte_len(seq![c]) >= 1,
        s.insert(k, c).take(k) == s.take(k),
{
    let t = s.insert(k, c);
    assert(t =~= s.take(k) + seq![c] + s.skip(k));
    assert(s =~= s.take(k) + s.skip(k));
    lemma_byte_len_concat(s.take(k), s.skip(k));
    lemma_byte_len_concat(s.take(k), seq![c]);
    lemma_byte_len_concat(s.take(k) + seq![c], s.skip(k));
    lemma_byte_len_at_least(seq![c]);
    assert(t.take(k) =~= s.take(k));
}

/// Taking out the character at `k` leaves the offset where it started within the text.
pub proof fn lemma_remove_bytes(s: Seq<char>, k: int)
    requires
        0 <= k < s.len(),
    ensures
        byte_len(s.take(k)) <= byte_len(s.remove(k)),
        s.remove(k).take(k) == s.take(k),
{
    let t = s.remove(k);
    assert(t =~= s.take(k) + s.skip(k + 1));
    lemma_byte_len_concat(s.take(k), s.skip(k + 1));
    assert(t.take(k) =~= s.take(k));
}

impl App {
    pub(crate) fn insert_char(&mut self, c: char)
        requires
            wf(old(self)@),
            boundary(old(self)@.input_text, old(self)@.input_cursor),
        ensures
            final(self)@ == typed(old(self)@, c),
            wf(final(self)@),
    {
        let ghost k = chars_before(self.input_text@, self.input_cursor as int);
        proof {
            lemma_insert_bytes(self.input_text@, k, c);
        }
        self.input_text.insert(self.input_cursor, c);
        // The length of the text is a machine integer, so the cursor has room to move on.
        let _size = text_len(self.input_text.as_str());
        self.input_cursor += 1;
    }

    fn erase_before(&mut self)
        requires
            wf(old(self)@),
            old(self)@.input_cursor > 0 ==> boundary(
                old(self)@.input_text,
                old(self)@.input_cursor - 1,
            ),
        ensures
            final(self)@ == erased_before(old(self)@),
            wf(final(self)@),
    {
        if self.input_cursor > 0 {
            self.input_cursor -= 1;
            proof {
                let s = self.input_text@;
                let k = chars_before(s, self.input_cursor as int);
                assert(s.take(s.len() as int) =~= s);
                assert(k < s.len());
                lemma_remove_bytes(s, k);
            }
            self.input_text.remove(self.input_cursor);
        }
    }

    fn erase_at(&mut self)
        requires
            wf(old(self)@),
            old(self)@.input_cursor < byte_len(old(self)@.input_text) ==> boundary(
                old(self)@.input_text,
                old(self)@.input_cursor,
            ),
        ensures
            final(self)@ == erased_at(old(self)@),
            wf(final(self)@),
    {
        if self.input_cursor < text_len(self.input_text.as_str()) {
            proof {
                let s = self.input_text@;
                let k = chars_before(s, self.input_cursor as int);
                assert(s.take(s.len() as int) =~= s);
                assert(k < s.len());
                lemma_remove_bytes(s, k);
            }
            self.input_text.remove(self.input_cursor);
        }
    }

    fn recall(&mut self, index: isize)
        requires
            wf(old(self)@),
            0 <= index < old(self)@.history.len(),
        ensures
            final(self)@ == recalled(old(self)@, index as int),
            wf(final(self)@),
    {
        self.history_index = index;
        let entry = self.history[self.history.len() - 1 - index as usize].clone();
        self.input_cursor = text_len(entry.as_str());
        self.input_text = entry;
    }

    fn recall_back(&mut self)
        requires
            wf(old(self)@),
        ensures
            final(self)@ == history_back(old(self)@),
            wf(final(self)@),
    {
        if self.history_index < self.history.len() as isize - 1 {
            self.recall(self.history_index + 1);
        }
    }

    fn recall_forward(&mut self)
        requires
            wf(old(self)@),
        ensures
            final(self)@ == history_forward(old(self)@),
            wf(final(self)@),
    {
        if self.history_index > 0 {
            self.recall(self.history_index - 1);
        } else if self.history_index == 0 {
            self.history_index = -1;
            self.input_text = String::new();
            self.input_cursor = 0;
        }
    }

    pub(crate) fn scroll_up(&mut self, by: usize)
        requires
            wf(old(self)@),
        ensures
            final(self)@ == scrolled(old(self)@, -by),
            wf(final(self)@),
    {
        self.scroll_offset = self.scroll_offset.saturating_sub(by);
        self.scroll_to_bottom = false;
    }

    pub(crate) fn scroll_down(&mut self, by: usize)
        requires
            wf(old(self)@),
            old(self)@.scroll_offset + by <= usize::MAX,
        ensures
            final(self)@ == scrolled(old(self)@, by as int),
            wf(final(self)@),
    {
        self.scroll_offset += by;
        self.scroll_to_bottom = false;
    }

    /// Makes the input directory behind the active one the active one.
    pub(crate) fn rotate_input_dir(&mut self)
        requires
            wf(old(self)@),
        ensures
            final(self)@ == input_rotated(old(self)@),
            wf(final(self)@),
    {
        if self.input_dirs.len() == 0 {
            return;
        }
        let next = next_of(&self.input_dirs, &self.active_input_dir);
        let name = name_or_empty(next.as_str());
        let shown = quote(name.as_str());
        self.set_status(chain("Active input: ", shown.as_str()));
        self.active_input_dir = Some(next);
    }

    /// Makes the output directory behind the active one the active one.
    pub(crate) fn rotate_output_dir(&mut self)
        requires
            wf(old(self)@),
        ensures
            final(self)@ == output_rotated(old(self)@),
            wf(final(self)@),
    {
        if self.output_dirs.len() == 0 {
            return;
        }
        let next = next_of(&self.output_dirs, &self.active_output_dir);
        let name = name_or_empty(next.as_str());
        let shown = quote(name.as_str());
        self.set_status(chain("Active output: ", shown.as_str()));
        self.active_output_dir = Some(next);
    }

    fn is_letter_scroll(&self, key: KeyEvent) -> (b: bool)
        ensures
            b == scrolls_by_letter(self@, key),
    {
        let letter = match key.code {
            KeyCode::Char(c) => c == 'j' || c == 'k',
            _ => false,
        };
        let normal = match &self.mode {
            AppMode::Normal => true,
            _ => false,
        };
        letter && normal && !key.ctrl && !key.alt && self.input_text.as_str().is_empty()
    }

    fn handle_char(&mut self, c: char, key: KeyEvent)
        requires
            wf(old(self)@),
            key.code == KeyCode::Char(c),
            normal_ready(old(self)@, key),
        ensures
            final(self)@ == char_key(old(self)@, c, key),
            wf(final(self)@),
    {
        if self.is_letter_scroll(key) {
            if c == 'j' {
                self.scroll_down(1);
            } else {
                self.scroll_up(1);
            }
        } else if key.ctrl && c == 'c' {
            self.should_quit = true;
        } else if key.ctrl && c == 'j' {
            self.insert_char('\n');
            self.multiline = false;
        } else if key.ctrl && c == 'r' {
            self.rotate_input_dir();
        } else if key.ctrl && c == 'o' {
            self.rotate_output_dir();
        } else if key.ctrl && c == 'f' {
            self.mode = AppMode::Import {
                buffer: String::new(),
                cursor: 0,
                completions: Vec::new(),
                completion_index: 0,
            };
            self.status_message = None;
            assert(self@.mode =~= ModeView::Import(empty_prompt()));
        } else if key.alt && c == 'i' {
            self.mode = AppMode::AddInputDir {
                buffer: String::new(),
                cursor: 0,
                completions: Vec::new(),
                completion_index: 0,
            };
            self.set_status(
                "Add input directory (Enter: add | Tab: cycle | Esc cancel)".to_owned(),
            );
            assert(self@.mode =~= ModeView::AddInputDir(empty_prompt()));
        } else if key.alt && c == 'o' {
            self.mode = AppMode::AddOutputDir {
                buffer: String::new(),
                cursor: 0,
                completions: Vec::new(),
                completion_index: 0,
            };
            self.set_status(
                "Add output directory (Enter: add | Tab: cycle | Esc cancel)".to_owned(),
            );
            assert(self@.mode =~= ModeView::AddOutputDir(empty_prompt()));
        } else {
            self.status_message = None;
            self.insert_char(c);
        }
    }

    /// Deals with a key while a message is typed.
    pub fn handle_key_normal(&mut self, key: KeyEvent, now: crate::clock::Timestamp) -> (step: Step)
        requires
            wf(old(self)@),
            normal_ready(old(self)@, key),
        ensures
            final(self)@ == normal_state(old(self)@, key),
            wf(final(self)@),
            step@ == normal_step(old(self)@, key, now@),
    {
        match key.code {
            KeyCode::Char(c) => self.handle_char(c, key),
            KeyCode::Enter => {
                if key.ctrl || !self.multiline {
                    if let Some(p) = self.submit_input(now) {
                        return Step::Ask(Request::StoreInput(p));
                    }
                }
            },
            KeyCode::Up => {
                if key.ctrl {
                    self.recall_back();
                } else {
                    self.scroll_up(1);
                }
            },
            KeyCode::Down => {
                if key.ctrl {
                    self.recall_forward();
                } else {
                    self.scroll_down(1);
                }
            },
            KeyCode::Tab => {
                let last = self.messages.len().saturating_sub(1);
                self.mode = AppMode::Select { cursor_index: last };
                self.set_status(
                    "Select mode: ↑/↓ navigate | Enter edit | Esc cancel".to_owned(),
                );
            },
            KeyCode::Backspace => {
                self.status_message = None;
                self.erase_before();
            },
            KeyCode::Delete => {
                self.status_message = None;
                self.erase_at();
            },
            KeyCode::Left => {
                if self.input_cursor > 0 {
                    self.input_cursor -= 1;
                }
            },
            KeyCode::Right => {
                if self.input_cursor < text_len(self.input_text.as_str()) {
                    self.input_cursor += 1;
                }
            },
            KeyCode::PageUp => self.scroll_up(10),
            KeyCode::PageDown => self.scroll_down(10),
            KeyCode::End => {
                self.scroll_to_bottom = true;
            },
            KeyCode::Esc => {},
            KeyCode::Other => {},
        }
        idle_step()
    }

    /// Whether a key can be dealt with while a message is typed.
    pub fn normal_accepts(&self, key: KeyEvent) -> (b: bool)
        requires
            wf(self@),
        ensures
            b == normal_ready(self@, key),
    {
        let text = self.input_text.as_str();
        match key.code {
            KeyCode::Char(c) => {
                if self.is_letter_scroll(key) {
                    return c != 'j' || self.scroll_offset < usize::MAX;
                }
                let typing = !(key.ctrl && (c == 'c' || c == 'r' || c == 'o' || c == 'f')) && !(
                key.alt && (c == 'i' || c == 'o'));
                !typing || on_boundary(text, self.input_cursor)
            },
            KeyCode::Enter => is_blank(text) || self.history.len() < isize::MAX as usize,
            KeyCode::Down => key.ctrl || self.scroll_offset < usize::MAX,
            KeyCode::Backspace => self.input_cursor == 0 || on_boundary(
                text,
                self.input_cursor - 1,
            ),
            KeyCode::Delete => self.input_cursor >= text_len(text) || on_boundary(
                text,
                self.input_cursor,
            ),
            KeyCode::PageDown => self.scroll_offset <= usize::MAX - 10,
            _ => true,
        }
    }
}

/// The mode that a key leads to from normal mode: Tab chooses the last message, and Ctrl+F, Alt+I
/// and Alt+O each ask for a path.
pub open spec fn mode_behind(a: AppView, key: KeyEvent) -> ModeView {
    if key.code == KeyCode::Tab {
        ModeView::Select {
            cursor_index: if a.messages.len() > 0 {
                a.messages.len() - 1
            } else {
                0
            },
        }
    } else if key.code == KeyCode::Char('f') && key.ctrl {
        ModeView::Import(empty_prompt())
    } else if key.code == KeyCode::Char('i') && key.alt {
        ModeView::AddInputDir(empty_prompt())
    } else if key.code == KeyCode::Char('o') && key.alt && !key.ctrl {
        ModeView::AddOutputDir(empty_prompt())
    } else {
        ModeView::Normal
    }
}

/// Only four keys lead out of normal mode, each to its own mode with nothing typed there yet, and
/// they leave what is typed and the timeline alone.
pub proof fn four_keys_leave_normal_mode(a: AppView, key: KeyEvent)
    requires
        a.mode is Normal,
    ensures
        normal_state(a, key).mode == mode_behind(a, key),
        mode_behind(a, key) !is Normal ==> {
            let b = normal_state(a, key);
            &&& b.input_text == a.input_text
            &&& b.input_cursor == a.input_cursor
            &&& b.history == a.history && b.history_index == a.history_index
            &&& b.messages == a.messages
        },
{
}

/// All that was typed so far is ASCII.
pub open spec fn ascii_typed(a: AppView) -> bool {
    &&& ascii(a.input_text)
    &&& forall|i: int| 0 <= i < a.history.len() ==> ascii(#[trigger] a.history[i])
}

/// Where all that was typed is ASCII, every key can be dealt with as long as the counters have
/// room, and it leaves the cursor within the text, between two characters, the place in the
/// history within the history, and all ASCII as before.
pub proof fn ascii_input_takes_every_key(a: AppView, key: KeyEvent)
    requires
        wf(a),
        ascii_typed(a),
        key.code matches KeyCode::Char(c) ==> (c as u32) < 0x80,
        a.scroll_offset + 10 <= usize::MAX,
        a.history.len() < isize::MAX,
    ensures
        normal_ready(a, key),
        ascii_typed(normal_state(a, key)),
        wf(normal_state(a, key)),
        boundary(normal_state(a, key).input_text, normal_state(a, key).input_cursor),
{
    let s = a.input_text;
    let at = a.input_cursor;
    let b = normal_state(a, key);
    lemma_ascii_offsets(s, 0);
    lemma_ascii_offsets(s, at);
    if at > 0 {
        lemma_ascii_offsets(s, at - 1);
    }
    assert forall|i: int| 0 <= i < b.history.len() implies ascii(#[trigger] b.history[i]) by {
        if i < a.history.len() {
            assert(b.history[i] == a.history[i]);
        }
    }
    match key.code {
        KeyCode::Char(c) => {
            assert(ascii(s.insert(at, c)));
            assert(ascii(s.insert(at, '\n')));
        },
        KeyCode::Backspace => {
            if at > 0 {
                assert(ascii(s.remove(at - 1)));
            }
        },
        KeyCode::Delete => {
            if at < s.len() {
                assert(ascii(s.remove(at)));
            }
        },
        KeyCode::Up => {
            if a.history_index < a.history.len() - 1 {
                assert(ascii(a.history[a.history.len() - 1 - (a.history_index + 1)]));
            }
        },
        KeyCode::Down => {
            if a.history_index > 0 {
                assert(ascii(a.history[a.history.len() - 1 - (a.history_index - 1)]));
            }
        },
        _ => {},
    }
    assert(ascii(b.input_text));
    lemma_ascii_offsets(b.input_text, 0);
    lemma_ascii_offsets(b.input_text, b.input_cursor);
}

/// Backspace undoes typing: the text and the cursor are what they were, whatever was typed.
pub proof fn backspace_undoes_typing(a: AppView, c: char)
    requires
        wf(a),
        boundary(a.input_text, a.input_cursor),
    ensures
        ({
            let b = typed(a, c);
            &&& boundary(b.input_text, b.input_cursor - 1)
            &&& erased_before(b).input_text == a.input_text
            &&& erased_before(b).input_cursor == a.input_cursor
        }),
{
    let s = a.input_text;
    let k = chars_before(s, a.input_cursor);
    let t = s.insert(k, c);
    lemma_insert_bytes(s, k, c);
    lemma_chars_before(t, k);
    assert(t.remove(k) =~= s);
}

/// Left undoes Right, and leaves the text alone.
pub proof fn left_undoes_right(a: AppView, right: KeyEvent, left: KeyEvent)
    requires
        wf(a),
        a.input_cursor < byte_len(a.input_text),
        right.code == KeyCode::Right,
        left.code == KeyCode::Left,
    ensures
        normal_state(normal_state(a, right), left) == a,
{
}

/// Ctrl+Up after a message was submitted brings it back, with the cursor at its end.
pub proof fn submitted_message_can_be_recalled(
    a: AppView,
    now: Moment,
    written: Option<Seq<char>>,
    at: Moment,
)
    requires
        wf(a),
        !blank(a.input_text),
    ensures
        ({
            let b = submitted(submitting(a), pending(a, now)->0, written, at);
            let c = history_back(b);
            &&& b.input_text.len() == 0
            &&& c.input_text == a.input_text
            &&& c.input_cursor == byte_len(a.input_text)
            &&& c.history_index == 0
        }),
{
}

/// Ctrl+Down undoes Ctrl+Up: from an entry of the history it leads back to that entry, and from
/// an empty input back to an empty input.
pub proof fn history_steps_undo_each_other(a: AppView)
    requires
        wf(a),
        a.history_index < a.history.len() - 1,
        a.history_index == -1 ==> a.input_text.len() == 0 && a.input_cursor == 0,
        a.history_index >= 0 ==> a == recalled(a, a.history_index),
    ensures
        history_forward(history_back(a)) == a,
{
    if a.history_index == -1 {
        assert(history_forward(history_back(a)) =~= a);
    }
}

/// The chat log moved down and up again by as many lines shows the same part.
pub proof fn scrolling_up_undoes_scrolling_down(a: AppView, by: int)
    requires
        a.scroll_offset >= 0,
        by >= 0,
    ensures
        scrolled(scrolled(a, by), -by).scroll_offset == a.scroll_offset,
{
}

/// The active directory after some rotations.
pub open spec fn rotated_input(a: AppView, times: nat) -> AppView
    decreases times,
{
    if times == 0 {
        a
    } else {
        input_rotated(rotated_input(a, (times - 1) as nat))
    }
}

/// The active output directory after some rotations.
pub open spec fn rotated_output(a: AppView, times: nat) -> AppView
    decreases times,
{
    if times == 0 {
        a
    } else {
        output_rotated(rotated_output(a, (times - 1) as nat))
    }
}

proof fn lemma_next_dir(dirs: Seq<Seq<char>>, i: int)
    requires
        all_different(dirs),
        0 <= i < dirs.len(),
    ensures
        next_dir(dirs, Some(dirs[i])) == dirs[(i + 1) % (dirs.len() as int)],
{
    assert(lists(dirs, dirs[i]));
    assert forall|j: int| 0 <= j < i implies !same_path(#[trigger] dirs[j], dirs[i]) by {
    }
    assert(first_place(dirs, dirs[i], i));
    let k = place_of(dirs, dirs[i]);
    assert(first_place(dirs, dirs[i], k));
    if k < i {
        assert(!same_path(dirs[k], dirs[i]));
    } else if i < k {
        assert(!same_path(dirs[i], dirs[i]));
    }
}

/// One step further round a circle of `n` places.
pub proof fn lemma_step_around(i: int, k: int, n: int)
    requires
        0 < n,
    ensures
        ((i + k) % n + 1) % n == (i + k + 1) % n,
{
    vstd::arithmetic::div_mod::lemma_add_mod_noop(i + k, 1, n);
    vstd::arithmetic::div_mod::lemma_add_mod_noop((i + k) % n, 1, n);
    vstd::arithmetic::div_mod::lemma_mod_twice(i + k, n);
}

/// Rotating goes through the input directories one after the other, and round again: from the
/// one at `i`, as many rotations as there are directories lead back to it.
pub proof fn input_rotation_goes_round(a: AppView, i: int, times: nat)
    requires
        all_different(a.input_dirs),
        0 <= i < a.input_dirs.len(),
        a.active_input_dir == Some(a.input_dirs[i]),
    ensures
        rotated_input(a, times).input_dirs == a.input_dirs,
        rotated_input(a, times).active_input_dir == Some(
            a.input_dirs[(i + times) % (a.input_dirs.len() as int)],
        ),
        times == a.input_dirs.len() ==> rotated_input(a, times).active_input_dir
            == a.active_input_dir,
    decreases times,
{
    let n = a.input_dirs.len() as int;
    if times > 0 {
        let k = times - 1;
        input_rotation_goes_round(a, i, k as nat);
        let at = (i + k) % n;
        vstd::arithmetic::div_mod::lemma_mod_bound(i + k, n);
        lemma_next_dir(a.input_dirs, at);
        lemma_step_around(i, k, n);
    } else {
        vstd::arithmetic::div_mod::lemma_small_mod(i as nat, n as nat);
    }
    if times == n {
        vstd::arithmetic::div_mod::lemma_mod_add_multiples_vanish(i, n);
        vstd::arithmetic::div_mod::lemma_small_mod(i as nat, n as nat);
        assert((i + times) % n == i);
    }
}

/// Rotating goes through the output directories one after the other, and round again.
pub proof fn output_rotation_goes_round(a: AppView, i: int, times: nat)
    requires
        all_different(a.output_dirs),
        0 <= i < a.output_dirs.len(),
        a.active_output_dir == Some(a.output_dirs[i]),
    ensures
        rotated_output(a, times).output_dirs == a.output_dirs,
        rotated_output(a, times).active_output_dir == Some(
            a.output_dirs[(i + times) % (a.output_dirs.len() as int)],
        ),
        times == a.output_dirs.len() ==> rotated_output(a, times).active_output_dir
            == a.active_output_dir,
    decreases times,
{
    let n = a.output_dirs.len() as int;
    if times > 0 {
        let k = times - 1;
        output_rotation_goes_round(a, i, k as nat);
        let at = (i + k) % n;
        vstd::arithmetic::div_mod::lemma_mod_bound(i + k, n);
        lemma_next_dir(a.output_dirs, at);
        lemma_step_around(i, k, n);
    } else {
        vstd::arithmetic::div_mod::lemma_small_mod(i as nat, n as nat);
    }
    if times == n {
        vstd::arithmetic::div_mod::lemma_mod_add_multiples_vanish(i, n);
        vstd::arithmetic::div_mod::lemma_small_mod(i as nat, n as nat);
        assert((i + times) % n == i);
    }
}

/// The directory behind the active one.
fn next_of(dirs: &Vec<String>, active: &Option<String>) -> (r: String)
    requires
        dirs@.len() > 0,
    ensures
        r@ == next_dir(texts(dirs@), crate::text::opt_text(*active)),
{
    let count = dirs.len();
    let current: usize = match active {
        Some(dir) => match find_dir(dirs, dir.as_str()) {
            Some(i) => i,
            None => 0,
        },
        None => 0,
    };
    let next: usize = if current + 1 == count {
        0
    } else {
        current + 1
    };
    proof {
        let n = dirs@.len() as int;
        if current + 1 == n {
            assert((current + 1) % n == 0) by (nonlinear_arith)
                requires
                    current + 1 == n,
                    n > 0,
            ;
        } else {
            assert((current + 1) % n == current + 1) by (nonlinear_arith)
                requires
                    0 <= current,
                    current + 1 < n,
            ;
        }
    }
    dirs[next].clone()
}

/// A typed character comes in where the cursor stands, the text before and behind it stays, and
/// the cursor moves on by one byte; nothing else changes.
pub proof fn typing_puts_the_character_in(a: AppView, k: int, c: char)
    requires
        0 <= k <= a.input_text.len(),
        a.input_cursor == byte_len(a.input_text.take(k)),
    ensures
        ({
            let b = typed(a, c);
            &&& b.input_text == a.input_text.take(k) + seq![c] + a.input_text.skip(k)
            &&& b.input_cursor == a.input_cursor + 1
            &&& b == AppView { input_text: b.input_text, input_cursor: b.input_cursor, ..a }
        }),
{
    lemma_chars_before(a.input_text, k);
    assert(typed(a, c).input_text =~= a.input_text.take(k) + seq![c] + a.input_text.skip(k));
}

/// A key of a character that has no other meaning types it, with whatever modifiers, and clears
/// the status. Ctrl+J types a line break and leaves multiline input.
pub proof fn character_keys_type(a: AppView, key: KeyEvent, k: int, c: char)
    requires
        0 <= k <= a.input_text.len(),
        a.input_cursor == byte_len(a.input_text.take(k)),
        key.code == KeyCode::Char(c),
    ensures
        ({
            let b = normal_state(a, key);
            let scrolls = a.mode is Normal && a.input_text.len() == 0 && !key.ctrl && !key.alt && (c
                == 'j' || c == 'k');
            let commands = key.ctrl && (c == 'c' || c == 'j' || c == 'r' || c == 'o' || c == 'f')
                || key.alt && (c == 'i' || c == 'o');
            &&& !scrolls && !commands ==> {
                &&& b.input_text == a.input_text.take(k) + seq![c] + a.input_text.skip(k)
                &&& b.input_cursor == a.input_cursor + 1
                &&& b.status_message is None
                &&& b == AppView {
                    input_text: b.input_text,
                    input_cursor: b.input_cursor,
                    status_message: None,
                    ..a
                }
            }
            &&& key.ctrl && c == 'j' ==> {
                &&& b.input_text == a.input_text.take(k) + seq!['\n'] + a.input_text.skip(k)
                &&& b.input_cursor == a.input_cursor + 1
                &&& !b.multiline
                &&& b == AppView {
                    input_text: b.input_text,
                    input_cursor: b.input_cursor,
                    multiline: false,
                    ..a
                }
            }
        }),
{
    typing_puts_the_character_in(a, k, c);
    typing_puts_the_character_in(a, k, '\n');
}

/// Backspace takes out the character that starts one byte before the cursor, and Delete the one
/// at the cursor; the rest of the text stays. Both clear the status, and change nothing else.
pub proof fn erasing_takes_one_character_out(a: AppView, key: KeyEvent, k: int)
    requires
        0 <= k < a.input_text.len(),
    ensures
        key.code == KeyCode::Backspace && a.input_cursor == byte_len(a.input_text.take(k)) + 1 ==> {
            let b = normal_state(a, key);
            &&& b.input_text == a.input_text.take(k) + a.input_text.skip(k + 1)
            &&& b.input_cursor == a.input_cursor - 1
            &&& b == AppView {
                input_text: b.input_text,
                input_cursor: b.input_cursor,
                status_message: None,
                ..a
            }
        },
        key.code == KeyCode::Delete && a.input_cursor == byte_len(a.input_text.take(k)) ==> {
            let b = normal_state(a, key);
            &&& b.input_text == a.input_text.take(k) + a.input_text.skip(k + 1)
            &&& b == AppView { input_text: b.input_text, status_message: None, ..a }
        },
{
    let s = a.input_text;
    lemma_chars_before(s, k);
    assert(s.remove(k) =~= s.take(k) + s.skip(k + 1));
    lemma_byte_len_take(s, k, s.len() as int);
    assert(s.take(s.len() as int) =~= s);
}

/// Backspace at the start of the text and Delete at its end take nothing out.
pub proof fn erasing_stops_at_the_ends(a: AppView, key: KeyEvent)
    ensures
        key.code == KeyCode::Backspace && a.input_cursor == 0 ==> normal_state(a, key) == (
        AppView { status_message: None, ..a }),
        key.code == KeyCode::Delete && a.input_cursor >= byte_len(a.input_text) ==> normal_state(
            a,
            key,
        ) == (AppView { status_message: None, ..a }),
{
}

/// Left and Right move the cursor by one byte within the text, and nothing else; Esc and the keys
/// without a meaning do nothing.
pub proof fn arrows_move_the_cursor(a: AppView, key: KeyEvent)
    ensures
        ({
            let b = normal_state(a, key);
            &&& key.code == KeyCode::Left && a.input_cursor > 0 ==> b == AppView {
                input_cursor: a.input_cursor - 1,
                ..a
            }
            &&& key.code == KeyCode::Left && a.input_cursor <= 0 ==> b == a
            &&& key.code == KeyCode::Right && a.input_cursor < byte_len(a.input_text) ==> b
                == AppView { input_cursor: a.input_cursor + 1, ..a }
            &&& key.code == KeyCode::Right && a.input_cursor >= byte_len(a.input_text) ==> b == a
            &&& key.code == KeyCode::Esc || key.code == KeyCode::Other ==> b == a
        }),
{
}

/// By how many lines a key moves the chat log: one by an arrow, or by `j` and `k` while nothing is
/// typed, and ten by a page.
pub open spec fn lines_scrolled(a: AppView, key: KeyEvent) -> int {
    if key.code == KeyCode::PageUp {
        -10
    } else if key.code == KeyCode::PageDown {
        10
    } else if key.code == KeyCode::Up && !key.ctrl {
        -1
    } else if key.code == KeyCode::Down && !key.ctrl {
        1
    } else if a.mode is Normal && a.input_text.len() == 0 && !key.ctrl && !key.alt {
        if key.code == KeyCode::Char('j') {
            1
        } else if key.code == KeyCode::Char('k') {
            -1
        } else {
            0
        }
    } else {
        0
    }
}

/// The keys that scroll move the chat log by their lines, as far as its top, from where it no
/// longer keeps to the end; no other key moves it, and only End asks for the end. Keys that scroll
/// leave all else as it is.
pub proof fn keys_scroll_by_their_lines(a: AppView, key: KeyEvent)
    requires
        a.scroll_offset >= 0,
    ensures
        ({
            let b = normal_state(a, key);
            let by = lines_scrolled(a, key);
            &&& by != 0 && a.scroll_offset + by >= 0 ==> b.scroll_offset == a.scroll_offset + by
            &&& by != 0 && a.scroll_offset + by < 0 ==> b.scroll_offset == 0
            &&& by != 0 ==> b == AppView {
                scroll_offset: b.scroll_offset,
                scroll_to_bottom: false,
                ..a
            }
            &&& by == 0 ==> b.scroll_offset == a.scroll_offset
            &&& key.code == KeyCode::End ==> b == AppView { scroll_to_bottom: true, ..a }
            &&& by == 0 && key.code != KeyCode::End ==> b.scroll_to_bottom == a.scroll_to_bottom
        }),
{
}

/// Enter submits, unless multiline input waits for Ctrl; Ctrl+C asks to quit and does nothing
/// else.
pub proof fn enter_and_ctrl_c_do_one_thing(a: AppView, key: KeyEvent)
    ensures
        key.code == KeyCode::Enter && !key.ctrl && a.multiline ==> normal_state(a, key) == a,
        key.code == KeyCode::Enter && (key.ctrl || !a.multiline) && !blank(a.input_text)
            ==> normal_state(a, key).history == a.history.push(a.input_text) && normal_state(
            a,
            key,
        ).history_index == -1 && normal_state(a, key).input_text == a.input_text,
        key.code == KeyCode::Enter && blank(a.input_text) ==> normal_state(a, key) == a,
        key.code == KeyCode::Char('c') && key.ctrl ==> normal_state(a, key) == (AppView {
            should_quit: true,
            ..a
        }),
{
}

/// Ctrl+Up goes one entry further back, as far as the oldest, and Ctrl+Down one forward, as far as
/// an empty input behind the latest. The entry stands in the input as it was submitted, with the
/// cursor at its end; all else stays.
pub proof fn history_is_recalled_in_its_order(a: AppView, key: KeyEvent)
    requires
        wf(a),
        key.ctrl,
    ensures
        ({
            let b = normal_state(a, key);
            let n = a.history.len() as int;
            let back = if a.history_index + 1 < n {
                a.history_index + 1
            } else {
                a.history_index
            };
            &&& key.code == KeyCode::Up || key.code == KeyCode::Down ==> b == AppView {
                input_text: b.input_text,
                input_cursor: b.input_cursor,
                history_index: b.history_index,
                ..a
            }
            &&& key.code == KeyCode::Up ==> b.history_index == back
            &&& key.code == KeyCode::Up && back == a.history_index ==> b == a
            &&& key.code == KeyCode::Down && a.history_index >= 0 ==> b.history_index
                == a.history_index - 1
            &&& key.code == KeyCode::Down && a.history_index < 0 ==> b == a
            &&& (key.code == KeyCode::Up || key.code == KeyCode::Down) && b != a
                && b.history_index >= 0 ==> b.input_text == a.history[n - 1 - b.history_index]
                && b.input_cursor == byte_len(b.input_text)
            &&& key.code == KeyCode::Down && a.history_index == 0 ==> b.input_text.len() == 0
                && b.input_cursor == 0
        }),
{
}

/// The state after Ctrl+Up was pressed some times.
pub open spec fn recalled_back(a: AppView, times: nat) -> AppView
    decreases times,
{
    if times == 0 {
        a
    } else {
        history_back(recalled_back(a, (times - 1) as nat))
    }
}

/// Pressed so many times, Ctrl+Up brings back the message that was submitted so many before: the
/// last one at first, and the oldest in the end.
pub proof fn going_back_reaches_every_message(a: AppView, times: nat)
    requires
        wf(a),
        a.history_index == -1,
        0 < times <= a.history.len(),
    ensures
        recalled_back(a, times).input_text == a.history[a.history.len() - times],
        recalled_back(a, times).history_index == times - 1,
        recalled_back(a, times).history == a.history,
    decreases times,
{
    if times > 1 {
        going_back_reaches_every_message(a, (times - 1) as nat);
    } else {
        assert(recalled_back(a, 0) == a);
        assert(recalled_back(a, 1) == history_back(recalled_back(a, 0)));
    }
}

/// The directory behind the one at `i`; behind the last comes the first.
spec fn dir_behind(dirs: Seq<Seq<char>>, i: int) -> Seq<char> {
    if i + 1 < dirs.len() {
        dirs[i + 1]
    } else {
        dirs[0]
    }
}

/// Ctrl+R makes the input directory behind the active one active, and Ctrl+O the output directory,
/// with a status that names it; behind the last comes the first. Where none is active, or the
/// active one is not listed, the first counts as active. Without directories nothing happens. The
/// lists, the directories of the other kind and all else stay.
pub proof fn rotation_takes_the_next_directory(a: AppView, key: KeyEvent, i: int)
    requires
        key.ctrl,
        key.code == KeyCode::Char('r') || key.code == KeyCode::Char('o'),
    ensures
        ({
            let b = normal_state(a, key);
            let input = key.code == KeyCode::Char('r');
            let dirs = if input {
                a.input_dirs
            } else {
                a.output_dirs
            };
            let active = if input {
                a.active_input_dir
            } else {
                a.active_output_dir
            };
            let next = if input {
                b.active_input_dir
            } else {
                b.active_output_dir
            };
            &&& dirs.len() == 0 ==> b == a
            &&& 0 <= i < dirs.len() && (active is None && i == 0 || active is Some && (first_place(
                dirs,
                active->0,
                i,
            ) || i == 0 && !lists(dirs, active->0))) ==> next == Some(
                if i + 1 < dirs.len() {
                    dirs[i + 1]
                } else {
                    dirs[0]
                },
            )
            &&& dirs.len() > 0 ==> next is Some && dirs.contains(next->0)
            &&& dirs.len() > 0 && input ==> b == AppView {
                active_input_dir: next,
                status_message: Some("Active input: "@ + quoted(shown_name(next->0))),
                ..a
            }
            &&& dirs.len() > 0 && !input ==> b == AppView {
                active_output_dir: next,
                status_message: Some("Active output: "@ + quoted(shown_name(next->0))),
                ..a
            }
        }),
{
    let input = key.code == KeyCode::Char('r');
    let dirs = if input {
        a.input_dirs
    } else {
        a.output_dirs
    };
    let active = if input {
        a.active_input_dir
    } else {
        a.active_output_dir
    };
    let n = dirs.len() as int;
    if n > 0 {
        let current = match active {
            Some(dir) => place_of(dirs, dir),
            None => 0,
        };
        let at = (current + 1) % n;
        vstd::arithmetic::div_mod::lemma_mod_bound(current + 1, n);
        assert(dirs[at] == next_dir(dirs, active));
        if 0 <= i < n {
            if i + 1 < n {
                vstd::arithmetic::div_mod::lemma_small_mod((i + 1) as nat, n as nat);
            } else {
                vstd::arithmetic::div_mod::lemma_mod_self_0(n);
            }
            assert(dirs[(i + 1) % n] == dir_behind(dirs, i));
            if active is Some && first_place(dirs, active->0, i) {
                let k = place_of(dirs, active->0);
                assert(lists(dirs, active->0));
                assert(first_place(dirs, active->0, k));
                if k < i {
                    assert(!same_path(dirs[k], active->0));
                } else if i < k {
                    assert(!same_path(dirs[i], active->0));
                }
            }
        }
    }
}

/// A mode that is entered says what it is for, or shows no status; what was typed stays.
pub proof fn entered_modes_say_what_they_are_for(a: AppView, key: KeyEvent)
    requires
        a.mode is Normal,
    ensures
        ({
            let b = normal_state(a, key);
            &&& b.mode is Import ==> b.status_message is None
            &&& b.mode is Select ==> b.status_message == Some(
                "Select mode: ↑/↓ navigate | Enter edit | Esc cancel"@,
            )
            &&& b.mode is AddInputDir ==> b.status_message == Some(
                "Add input directory (Enter: add | Tab: cycle | Esc cancel)"@,
            )
            &&& b.mode is AddOutputDir ==> b.status_message == Some(
                "Add output directory (Enter: add | Tab: cycle | Esc cancel)"@,
            )
            &&& !(b.mode is Normal) ==> b == AppView {
                mode: b.mode,
                status_message: b.status_message,
                ..a
            }
        }),
{
}

/// The same four keys lead to the other modes from wherever text is typed; every other key leaves
/// the mode as it is.
pub proof fn other_keys_keep_the_mode(a: AppView, key: KeyEvent)
    ensures
        mode_behind(a, key) !is Normal ==> normal_state(a, key).mode == mode_behind(a, key),
        mode_behind(a, key) is Normal ==> normal_state(a, key).mode == a.mode,
{
}

/// The keys that neither type nor erase nor scroll down can be dealt with wherever the cursor
/// stands: the commands by Ctrl and Alt, the arrows that move the cursor, and the keys that leave
/// the text alone. Erasing where there is nothing to erase can, too.
pub proof fn commands_can_always_be_dealt_with(a: AppView, key: KeyEvent, c: char)
    ensures
        key.code == KeyCode::Char(c) && key.ctrl && (c == 'c' || c == 'r' || c == 'o' || c == 'f')
            ==> normal_ready(a, key),
        key.code == KeyCode::Char(c) && key.alt && (c == 'i' || c == 'o') ==> normal_ready(a, key),
        key.code == KeyCode::Char('k') && !key.ctrl && !key.alt && a.mode is Normal
            && a.input_text.len() == 0 ==> normal_ready(a, key),
        key.code == KeyCode::Up || key.code == KeyCode::Down && key.ctrl || key.code
            == KeyCode::PageUp || key.code == KeyCode::End || key.code == KeyCode::Tab || key.code
            == KeyCode::Left || key.code == KeyCode::Right || key.code == KeyCode::Esc || key.code
            == KeyCode::Other ==> normal_ready(a, key),
        key.code == KeyCode::Enter && blank(a.input_text) ==> normal_ready(a, key),
        key.code == KeyCode::Backspace && a.input_cursor <= 0 ==> normal_ready(a, key),
        key.code == KeyCode::Delete && a.input_cursor >= byte_len(a.input_text) ==> normal_ready(
            a,
            key,
        ),
{
}

/// A character can be typed where the cursor stands between two characters, or at an end, and the
/// one that starts a byte before it, or at it, can be erased; nowhere else.
pub proof fn text_is_changed_between_characters(a: AppView, key: KeyEvent, c: char)
    ensures
        key.code == KeyCode::Char(c) && !key.ctrl && !key.alt && a.input_text.len() > 0 ==> (
        normal_ready(a, key) <==> boundary(a.input_text, a.input_cursor)),
        key.code == KeyCode::Backspace && a.input_cursor > 0 ==> (normal_ready(a, key)
            <==> boundary(a.input_text, a.input_cursor - 1)),
        key.code == KeyCode::Delete && a.input_cursor < byte_len(a.input_text) ==> (normal_ready(
            a,
            key,
        ) <==> boundary(a.input_text, a.input_cursor)),
{
}

} // verus!
