//! Keys while a path is typed: to import a file, or to add a directory.
use vstd::prelude::*;

use crate::completion::{
    completion_pattern, expand_home, expanded, keep_completions, kept_completions, pattern_for,
};
use crate::events::{
    idle, idle_step, ActionView, KeyCode, KeyEvent, Request, RequestView, Step, StepView,
};
use crate::normal::{lemma_insert_bytes, lemma_remove_bytes, lemma_step_around};
use crate::paths::{
    all_different, find_dir, join_path, lists, name_or_empty, path_join, quote, quoted, same_path,
    shown_name,
};
use crate::state::{prompt_wf, wf, App, AppMode, AppView, ModeView, PromptView};
use crate::text::{
    boundary, byte_len, chain, chars_before, copy_texts, lemma_chars_before, lemma_texts_push,
    on_boundary, opt_text, text_len, texts,
};

verus! {

/// What the path is typed for.
#[derive(Debug, Clone, Copy, PartialEq, Eq, Structural)]
pub enum PromptKind {
    Import,
    AddInput,
    AddOutput,
}

/// A path that is being typed.
struct Prompt {
    buffer: String,
    cursor: usize,
    completions: Vec<String>,
    completion_index: usize,
}

impl Prompt {
    spec fn shown(self) -> PromptView {
        PromptView {
            buffer: self.buffer@,
            cursor: self.cursor as int,
            completions: texts(self.completions@),
            completion_index: self.completion_index as int,
        }
    }
}

/// The mode in which a path is typed.
pub open spec fn prompt_mode(kind: PromptKind, p: PromptView) -> ModeView {
    match kind {
        PromptKind::Import => ModeView::Import(p),
        PromptKind::AddInput => ModeView::AddInputDir(p),
        PromptKind::AddOutput => ModeView::AddOutputDir(p),
    }
}

/// The path that is being typed in a mode.
pub open spec fn prompt_of(mode: ModeView) -> Option<(PromptKind, PromptView)> {
    match mode {
        ModeView::Import(p) => Some((PromptKind::Import, p)),
        ModeView::AddInputDir(p) => Some((PromptKind::AddInput, p)),
        ModeView::AddOutputDir(p) => Some((PromptKind::AddOutput, p)),
        _ => None,
    }
}

/// A character put in at the cursor. The completions have to be found again.
pub open spec fn prompt_typed(p: PromptView, c: char) -> PromptView {
    PromptView {
        buffer: p.buffer.insert(chars_before(p.buffer, p.cursor), c),
        cursor: p.cursor + 1,
        completions: Seq::empty(),
        completion_index: 0,
    }
}

/// The character that starts one byte before the cursor taken out.
pub open spec fn prompt_erased(p: PromptView) -> PromptView {
    PromptView {
        buffer: p.buffer.remove(chars_before(p.buffer, p.cursor - 1)),
        cursor: p.cursor - 1,
        completions: Seq::empty(),
        completion_index: 0,
    }
}

/// The next completion takes the place of what was typed; behind the last comes the first.
pub open spec fn prompt_cycled(p: PromptView) -> PromptView {
    if p.completions.len() > 0 {
        let next = (p.completion_index + 1) % (p.completions.len() as int);
        PromptView {
            buffer: p.completions[next],
            cursor: byte_len(p.completions[next]) as int,
            completion_index: next,
            ..p
        }
    } else {
        p
    }
}

/// What a key makes of the path.
pub open spec fn prompt_after(p: PromptView, key: KeyEvent) -> PromptView {
    match key.code {
        KeyCode::Tab => prompt_cycled(p),
        KeyCode::Backspace => if p.cursor > 0 {
            prompt_erased(p)
        } else {
            p
        },
        KeyCode::Char(c) => prompt_typed(p, c),
        _ => p,
    }
}

/// What a key does while a path is typed.
pub open spec fn prompt_state(
    a: AppView,
    kind: PromptKind,
    p: PromptView,
    key: KeyEvent,
) -> AppView {
    if key.code == KeyCode::Esc {
        AppView { mode: ModeView::Normal, status_message: None, ..a }
    } else {
        AppView { mode: prompt_mode(kind, prompt_after(p, key)), ..a }
    }
}

/// The path that Enter takes: the chosen completion, or what was typed.
pub open spec fn prompt_target(p: PromptView, typed_path: Seq<char>) -> Seq<char> {
    if p.completions.len() == 0 {
        typed_path
    } else if p.completion_index < p.completions.len() {
        p.completions[p.completion_index]
    } else {
        p.completions[0]
    }
}

/// A key that changes what is typed.
pub open spec fn changes_path(p: PromptView, key: KeyEvent) -> bool {
    key.code is Char || (key.code == KeyCode::Backspace && p.cursor > 0)
}

/// The step that a key leads to while a path is typed. A path typed for an import has `~/`
/// replaced by the home directory.
pub open spec fn prompt_step(
    kind: PromptKind,
    p: PromptView,
    key: KeyEvent,
    home: Option<Seq<char>>,
) -> StepView {
    if key.code == KeyCode::Enter {
        StepView::Ask(
            match kind {
                PromptKind::Import => RequestView::ProbeImport {
                    path: prompt_target(p, expanded(p.buffer, home)),
                },
                PromptKind::AddInput => RequestView::ProbeDir {
                    path: prompt_target(p, p.buffer),
                    is_input: true,
                },
                PromptKind::AddOutput => RequestView::ProbeDir {
                    path: prompt_target(p, p.buffer),
                    is_input: false,
                },
            },
        )
    } else if changes_path(p, key) {
        match pattern_for(prompt_after(p, key).buffer, home) {
            Some(pattern) => StepView::Ask(RequestView::Complete { pattern }),
            None => idle(),
        }
    } else {
        idle()
    }
}

/// The key finds the cursor where the path can be cut.
pub open spec fn prompt_ready(p: PromptView, key: KeyEvent) -> bool {
    match key.code {
        KeyCode::Char(_) => boundary(p.buffer, p.cursor),
        KeyCode::Backspace => p.cursor > 0 ==> boundary(p.buffer, p.cursor - 1),
        _ => true,
    }
}

/// The completions that were found are kept, and the first of them is chosen.
pub open spec fn completed(mode: ModeView, matches: Seq<Seq<char>>) -> ModeView {
    match prompt_of(mode) {
        Some((kind, p)) => prompt_mode(
            kind,
            PromptView { completions: kept_completions(matches), completion_index: 0, ..p },
        ),
        None => mode,
    }
}

/// The prompt is over, with a line of status.
pub open spec fn prompt_closed(a: AppView, status: Seq<char>) -> AppView {
    AppView { mode: ModeView::Normal, status_message: Some(status), ..a }
}

/// The path of a copy: the file name, in the directory.
pub open spec fn copy_path(dir: Seq<char>, from: Seq<char>) -> Seq<char> {
    path_join(dir, shown_name(from))
}

/// What is known about the file to import; without an input directory it cannot be copied.
pub open spec fn import_probed_state(a: AppView, exists: bool) -> AppView {
    if !exists {
        prompt_closed(a, "File does not exist"@)
    } else if a.active_input_dir is None {
        prompt_closed(a, "No active input directory set"@)
    } else {
        a
    }
}

/// The step that follows: the file is copied into the active input directory.
pub open spec fn import_step(a: AppView, path: Seq<char>, exists: bool) -> StepView {
    match a.active_input_dir {
        Some(dir) if exists => StepView::Ask(
            RequestView::Copy { from: path, to: copy_path(dir, path) },
        ),
        _ => idle(),
    }
}

/// What copying came to.
pub open spec fn copied_state(
    a: AppView,
    from: Seq<char>,
    to: Seq<char>,
    error: Option<Seq<char>>,
) -> AppView {
    prompt_closed(
        a,
        match error {
            Some(e) => "Copy failed: "@ + e,
            None => "Copied "@ + quoted(from) + " → "@ + quoted(to),
        },
    )
}

/// What adding a directory comes to. One that is listed already is not listed again.
pub open spec fn directory_added(
    a: AppView,
    path: Seq<char>,
    is_input: bool,
    is_dir: bool,
) -> AppView {
    if !is_dir {
        prompt_closed(a, "Not a directory"@)
    } else if is_input {
        if lists(a.input_dirs, path) {
            prompt_closed(a, "Already in input dirs"@)
        } else {
            AppView {
                input_dirs: a.input_dirs.push(path),
                active_input_dir: Some(path),
                ..prompt_closed(a, "Added input: "@ + quoted(path))
            }
        }
    } else {
        if lists(a.output_dirs, path) {
            prompt_closed(a, "Already in output dirs"@)
        } else {
            AppView {
                output_dirs: a.output_dirs.push(path),
                active_output_dir: Some(path),
                ..prompt_closed(a, "Added output: "@ + quoted(path))
            }
        }
    }
}

impl App {
    fn prompt(&self) -> (r: Option<(PromptKind, Prompt)>)
        ensures
            match (r, prompt_of(self@.mode)) {
                (Some((kind, p)), Some((k, q))) => kind == k && p.shown() == q,
                (None, None) => true,
                _ => false,
            },
    {
        match &self.mode {
            AppMode::Import { buffer, cursor, completions, completion_index } => Some(
                (
                    PromptKind::Import,
                    Prompt {
                        buffer: buffer.clone(),
                        cursor: *cursor,
                        completions: copy_texts(completions),
                        completion_index: *completion_index,
                    },
                ),
            ),
            AppMode::AddInputDir { buffer, cursor, completions, completion_index } => Some(
                (
                    PromptKind::AddInput,
                    Prompt {
                        buffer: buffer.clone(),
                        cursor: *cursor,
                        completions: copy_texts(completions),
                        completion_index: *completion_index,
                    },
                ),
            ),
            AppMode::AddOutputDir { buffer, cursor, completions, completion_index } => Some(
                (
                    PromptKind::AddOutput,
                    Prompt {
                        buffer: buffer.clone(),
                        cursor: *cursor,
                        completions: copy_texts(completions),
                        completion_index: *completion_index,
                    },
                ),
            ),
            _ => None,
        }
    }

    fn set_prompt(&mut self, kind: PromptKind, p: Prompt)
        ensures
            final(self)@ == (AppView { mode: prompt_mode(kind, p.shown()), ..old(self)@ }),
    {
        let buffer = p.buffer;
        let cursor = p.cursor;
        let completions = p.completions;
        let completion_index = p.completion_index;
        self.mode = match kind {
            PromptKind::Import => AppMode::Import { buffer, cursor, completions, completion_index },
            PromptKind::AddInput => AppMode::AddInputDir {
                buffer,
                cursor,
                completions,
                completion_index,
            },
            PromptKind::AddOutput => AppMode::AddOutputDir {
                buffer,
                cursor,
                completions,
                completion_index,
            },
        };
    }

    fn close_prompt(&mut self, status: String)
        requires
            wf(old(self)@),
        ensures
            final(self)@ == prompt_closed(old(self)@, status@),
            wf(final(self)@),
    {
        self.mode = AppMode::Normal;
        self.status_message = Some(status);
    }

    /// Deals with a key while a path is typed, whatever it is typed for.
    pub fn handle_key_prompt(&mut self, key: KeyEvent, home: &Option<String>) -> (step: Step)
        requires
            wf(old(self)@),
            prompt_of(old(self)@.mode) matches Some((kind, p)) ==> prompt_ready(p, key),
        ensures
            match prompt_of(old(self)@.mode) {
                Some((kind, p)) => {
                    &&& final(self)@ == prompt_state(old(self)@, kind, p, key)
                    &&& step@ == prompt_step(kind, p, key, opt_text(*home))
                },
                None => final(self)@ == old(self)@ && step@ == idle(),
            },
            wf(final(self)@),
    {
        let (kind, p) = match self.prompt() {
            Some(kp) => kp,
            None => {
                return idle_step();
            },
        };
        let ghost shown = p.shown();
        assert(prompt_mode(kind, shown) =~= self@.mode);
        match key.code {
            KeyCode::Esc => {
                self.mode = AppMode::Normal;
                self.status_message = None;
                idle_step()
            },
            KeyCode::Enter => {
                let path = match kind {
                    PromptKind::Import => target_of(
                        &p,
                        expand_home(p.buffer.as_str(), home),
                    ),
                    _ => target_of(&p, p.buffer.clone()),
                };
                match kind {
                    PromptKind::Import => Step::Ask(Request::ProbeImport { path }),
                    PromptKind::AddInput => Step::Ask(Request::ProbeDir { path, is_input: true }),
                    PromptKind::AddOutput => Step::Ask(Request::ProbeDir { path, is_input: false }),
                }
            },
            KeyCode::Tab => {
                self.set_prompt(kind, cycle(p));
                idle_step()
            },
            KeyCode::Backspace => {
                if p.cursor > 0 {
                    let q = erase(p);
                    let step = complete_step(&q, home);
                    self.set_prompt(kind, q);
                    step
                } else {
                    idle_step()
                }
            },
            KeyCode::Char(c) => {
                let q = type_char(p, c);
                let step = complete_step(&q, home);
                self.set_prompt(kind, q);
                step
            },
            _ => idle_step(),
        }
    }

    /// Deals with a key while the path of a file to import is typed.
    pub fn handle_key_import(&mut self, key: KeyEvent, home: &Option<String>) -> (step: Step)
        requires
            wf(old(self)@),
            old(self)@.mode matches ModeView::Import(p) ==> prompt_ready(p, key),
        ensures
            match old(self)@.mode {
                ModeView::Import(p) => {
                    &&& final(self)@ == prompt_state(old(self)@, PromptKind::Import, p, key)
                    &&& step@ == prompt_step(PromptKind::Import, p, key, opt_text(*home))
                },
                _ => final(self)@ == old(self)@ && step@ == idle(),
            },
            wf(final(self)@),
    {
        match &self.mode {
            AppMode::Import { .. } => self.handle_key_prompt(key, home),
            _ => idle_step(),
        }
    }

    /// Generic handler for "add directory" modes (AddInputDir / AddOutputDir)
    pub fn handle_key_add_dir(
        &mut self,
        key: KeyEvent,
        is_input: bool,
        home: &Option<String>,
    ) -> (step: Step)
        requires
            wf(old(self)@),
            match (old(self)@.mode, is_input) {
                (ModeView::AddInputDir(p), true) => prompt_ready(p, key),
                (ModeView::AddOutputDir(p), false) => prompt_ready(p, key),
                _ => true,
            },
        ensures
            match (old(self)@.mode, is_input) {
                (ModeView::AddInputDir(p), true) => {
                    &&& final(self)@ == prompt_state(old(self)@, PromptKind::AddInput, p, key)
                    &&& step@ == prompt_step(PromptKind::AddInput, p, key, opt_text(*home))
                },
                (ModeView::AddOutputDir(p), false) => {
                    &&& final(self)@ == prompt_state(old(self)@, PromptKind::AddOutput, p, key)
                    &&& step@ == prompt_step(PromptKind::AddOutput, p, key, opt_text(*home))
                },
                _ => final(self)@ == old(self)@ && step@ == idle(),
            },
            wf(final(self)@),
    {
        let fits = match &self.mode {
            AppMode::AddInputDir { .. } => is_input,
            AppMode::AddOutputDir { .. } => !is_input,
            _ => false,
        };
        if fits {
            self.handle_key_prompt(key, home)
        } else {
            idle_step()
        }
    }

    /// Takes the paths that match what is typed.
    pub fn completions_found(&mut self, matches: Vec<String>)
        requires
            wf(old(self)@),
        ensures
            final(self)@ == (AppView {
                mode: completed(old(self)@.mode, texts(matches@)),
                ..old(self)@
            }),
            wf(final(self)@),
    {
        if let Some((kind, p)) = self.prompt() {
            let ghost shown = p.shown();
            assert(prompt_mode(kind, shown) =~= self@.mode);
            self.set_prompt(
                kind,
                Prompt {
                    buffer: p.buffer,
                    cursor: p.cursor,
                    completions: keep_completions(matches),
                    completion_index: 0,
                },
            );
        }
    }

    /// Goes on with importing once it is known whether the file exists.
    pub fn import_probed(&mut self, path: String, exists: bool) -> (step: Step)
        requires
            wf(old(self)@),
        ensures
            final(self)@ == import_probed_state(old(self)@, exists),
            wf(final(self)@),
            step@ == import_step(old(self)@, path@, exists),
    {
        if !exists {
            self.close_prompt("File does not exist".to_owned());
            return idle_step();
        }
        if let Some(dir) = &self.active_input_dir {
            let name = name_or_empty(path.as_str());
            let to = join_path(dir.as_str(), name.as_str());
            return Step::Ask(Request::Copy { from: path, to });
        }
        self.close_prompt("No active input directory set".to_owned());
        idle_step()
    }

    /// Tells what copying came to: the error, if there was one.
    pub fn file_copied(&mut self, from: String, to: String, error: Option<String>)
        requires
            wf(old(self)@),
        ensures
            final(self)@ == copied_state(old(self)@, from@, to@, opt_text(error)),
            wf(final(self)@),
    {
        let status = match &error {
            Some(e) => chain("Copy failed: ", e.as_str()),
            None => {
                let mut line = chain("Copied ", quote(from.as_str()).as_str());
                line.append(" → ");
                line.append(quote(to.as_str()).as_str());
                line
            },
        };
        self.close_prompt(status);
    }

    /// Adds a directory once it is known whether the path is one.
    pub fn directory_probed(&mut self, path: String, is_input: bool, is_dir: bool)
        requires
            wf(old(self)@),
        ensures
            final(self)@ == directory_added(old(self)@, path@, is_input, is_dir),
            wf(final(self)@),
    {
        if !is_dir {
            self.close_prompt("Not a directory".to_owned());
            return;
        }
        let shown = quote(path.as_str());
        if is_input {
            match find_dir(&self.input_dirs, path.as_str()) {
                Some(_) => self.close_prompt("Already in input dirs".to_owned()),
                None => {
                    self.close_prompt(chain("Added input: ", shown.as_str()));
                    proof {
                        lemma_texts_push(self.input_dirs@, path);
                    }
                    self.active_input_dir = Some(path.clone());
                    self.input_dirs.push(path);
                },
            }
        } else {
            match find_dir(&self.output_dirs, path.as_str()) {
                Some(_) => self.close_prompt("Already in output dirs".to_owned()),
                None => {
                    self.close_prompt(chain("Added output: ", shown.as_str()));
                    proof {
                        lemma_texts_push(self.output_dirs@, path);
                    }
                    self.active_output_dir = Some(path.clone());
                    self.output_dirs.push(path);
                },
            }
        }
    }

    /// Whether a key can be dealt with while a path is typed.
    pub fn prompt_accepts(&self, key: KeyEvent) -> (b: bool)
        ensures
            b == (match prompt_of(self@.mode) {
                Some((_, p)) => prompt_ready(p, key),
                None => true,
            }),
    {
        match self.prompt() {
            Some((_, p)) => match key.code {
                KeyCode::Char(_) => on_boundary(p.buffer.as_str(), p.cursor),
                KeyCode::Backspace => p.cursor == 0 || on_boundary(
                    p.buffer.as_str(),
                    p.cursor - 1,
                ),
                _ => true,
            },
            None => true,
        }
    }
}

fn target_of(p: &Prompt, typed_path: String) -> (r: String)
    ensures
        r@ == prompt_target(p.shown(), typed_path@),
{
    if p.completions.len() == 0 {
        typed_path
    } else if p.completion_index < p.completions.len() {
        p.completions[p.completion_index].clone()
    } else {
        p.completions[0].clone()
    }
}

fn cycle(p: Prompt) -> (q: Prompt)
    requires
        prompt_wf(p.shown()),
    ensures
        q.shown() == prompt_cycled(p.shown()),
        prompt_wf(q.shown()),
{
    let count = p.completions.len();
    if count == 0 {
        return p;
    }
    let next = if p.completion_index + 1 == count {
        0
    } else {
        p.completion_index + 1
    };
    proof {
        let n = count as int;
        let i = p.completion_index as int;
        if i + 1 == n {
            assert((i + 1) % n == 0) by (nonlinear_arith)
                requires
                    i + 1 == n,
                    n > 0,
            ;
        } else {
            assert((i + 1) % n == i + 1) by (nonlinear_arith)
                requires
                    0 <= i,
                    i + 1 < n,
            ;
        }
    }
    let buffer = p.completions[next].clone();
    let cursor = text_len(buffer.as_str());
    Prompt { buffer, cursor, completions: p.completions, completion_index: next }
}

fn erase(p: Prompt) -> (q: Prompt)
    requires
        prompt_wf(p.shown()),
        p.cursor > 0,
        boundary(p.buffer@, p.cursor - 1),
    ensures
        q.shown() == prompt_erased(p.shown()),
        prompt_wf(q.shown()),
{
    let cursor = p.cursor - 1;
    let mut buffer = p.buffer;
    proof {
        let s = buffer@;
        let k = chars_before(s, cursor as int);
        assert(s.take(s.len() as int) =~= s);
        assert(k < s.len());
        lemma_remove_bytes(s, k);
    }
    buffer.remove(cursor);
    let q = Prompt { buffer, cursor, completions: Vec::new(), completion_index: 0 };
    assert(q.shown() =~= prompt_erased(p.shown()));
    q
}

fn type_char(p: Prompt, c: char) -> (q: Prompt)
    requires
        prompt_wf(p.shown()),
        boundary(p.buffer@, p.cursor as int),
    ensures
        q.shown() == prompt_typed(p.shown(), c),
        prompt_wf(q.shown()),
{
    let mut buffer = p.buffer;
    proof {
        lemma_insert_bytes(buffer@, chars_before(buffer@, p.cursor as int), c);
    }
    buffer.insert(p.cursor, c);
    // The length of the text is a machine integer, so the cursor has room to move on.
    let _size = text_len(buffer.as_str());
    let q = Prompt {
        buffer,
        cursor: p.cursor + 1,
        completions: Vec::new(),
        completion_index: 0,
    };
    assert(q.shown() =~= prompt_typed(p.shown(), c));
    q
}

fn complete_step(p: &Prompt, home: &Option<String>) -> (step: Step)
    ensures
        step@ == (match pattern_for(p.buffer@, opt_text(*home)) {
            Some(pattern) => StepView::Ask(RequestView::Complete { pattern }),
            None => idle(),
        }),
{
    match completion_pattern(p.buffer.as_str(), home) {
        Some(pattern) => Step::Ask(Request::Complete { pattern }),
        None => idle_step(),
    }
}

/// Adding a directory never lists one twice, keeps those that are listed in their place, and
/// makes the added one the active one.
pub proof fn adding_keeps_directories_different(
    a: AppView,
    path: Seq<char>,
    is_input: bool,
    is_dir: bool,
)
    ensures
        ({
            let b = directory_added(a, path, is_input, is_dir);
            &&& all_different(a.input_dirs) ==> all_different(b.input_dirs)
            &&& all_different(a.output_dirs) ==> all_different(b.output_dirs)
            &&& a.input_dirs.is_prefix_of(b.input_dirs)
            &&& a.output_dirs.is_prefix_of(b.output_dirs)
            &&& is_dir && is_input && b.input_dirs != a.input_dirs ==> b.active_input_dir
                == Some(path)
            &&& is_dir && !is_input && b.output_dirs != a.output_dirs ==> b.active_output_dir
                == Some(path)
            &&& is_dir && is_input ==> lists(b.input_dirs, path)
            &&& is_dir && !is_input ==> lists(b.output_dirs, path)
        }),
{
    let b = directory_added(a, path, is_input, is_dir);
    assert(a.input_dirs =~= b.input_dirs.subrange(0, a.input_dirs.len() as int));
    assert(a.output_dirs =~= b.output_dirs.subrange(0, a.output_dirs.len() as int));
    if is_dir && is_input && !lists(a.input_dirs, path) {
        let n = a.input_dirs.len() as int;
        assert(b.input_dirs[n] == path);
        assert forall|i: int, j: int|
            all_different(a.input_dirs) && 0 <= i < j < b.input_dirs.len() implies !same_path(
            #[trigger] b.input_dirs[i],
            #[trigger] b.input_dirs[j],
        ) by {
            assert(b.input_dirs[i] == a.input_dirs[i]);
            if j < n {
                assert(b.input_dirs[j] == a.input_dirs[j]);
            }
        }
    }
    if is_dir && !is_input && !lists(a.output_dirs, path) {
        let n = a.output_dirs.len() as int;
        assert(b.output_dirs[n] == path);
        assert forall|i: int, j: int|
            all_different(a.output_dirs) && 0 <= i < j < b.output_dirs.len() implies !same_path(
            #[trigger] b.output_dirs[i],
            #[trigger] b.output_dirs[j],
        ) by {
            assert(b.output_dirs[i] == a.output_dirs[i]);
            if j < n {
                assert(b.output_dirs[j] == a.output_dirs[j]);
            }
        }
    }
}

/// The prompt after Tab was pressed some times.
pub open spec fn prompt_tabbed(p: PromptView, times: nat) -> PromptView
    decreases times,
{
    if times == 0 {
        p
    } else {
        prompt_cycled(prompt_tabbed(p, (times - 1) as nat))
    }
}

/// Tab goes through the completions one after the other, and round again: each time the chosen
/// one is what stands in the prompt, with the cursor at its end.
pub proof fn tab_goes_round(p: PromptView, times: nat)
    requires
        p.completions.len() > 0,
        0 <= p.completion_index < p.completions.len(),
    ensures
        ({
            let q = prompt_tabbed(p, times);
            &&& q.completions == p.completions
            &&& q.completion_index == (p.completion_index + times) % (p.completions.len() as int)
            &&& times > 0 ==> q.buffer == p.completions[q.completion_index]
            &&& times > 0 ==> q.cursor == byte_len(q.buffer)
            &&& times == p.completions.len() ==> q.completion_index == p.completion_index
        }),
    decreases times,
{
    let n = p.completions.len() as int;
    let i = p.completion_index;
    if times > 0 {
        tab_goes_round(p, (times - 1) as nat);
        lemma_step_around(i, times - 1, n);
        vstd::arithmetic::div_mod::lemma_mod_bound(i + times, n);
    } else {
        vstd::arithmetic::div_mod::lemma_small_mod(i as nat, n as nat);
    }
    if times == n {
        vstd::arithmetic::div_mod::lemma_mod_add_multiples_vanish(i, n);
        vstd::arithmetic::div_mod::lemma_small_mod(i as nat, n as nat);
    }
}

/// Backspace undoes typing in a prompt: the path and the cursor are what they were.
pub proof fn backspace_undoes_typing_in_a_prompt(p: PromptView, c: char)
    requires
        prompt_wf(p),
        boundary(p.buffer, p.cursor),
    ensures
        prompt_erased(prompt_typed(p, c)).buffer == p.buffer,
        prompt_erased(prompt_typed(p, c)).cursor == p.cursor,
{
    let k = chars_before(p.buffer, p.cursor);
    let t = p.buffer.insert(k, c);
    lemma_insert_bytes(p.buffer, k, c);
    lemma_chars_before(t, k);
    assert(t.remove(k) =~= p.buffer);
}

/// A character typed into a path comes in where the cursor stands, and Backspace takes out the one
/// that starts a byte before it; the rest of the path stays. The completions found for the path as
/// it was are dropped.
pub proof fn typing_changes_the_path(p: PromptView, key: KeyEvent, k: int, c: char)
    requires
        0 <= k <= p.buffer.len(),
    ensures
        key.code == KeyCode::Char(c) && p.cursor == byte_len(p.buffer.take(k)) ==> {
            let q = prompt_after(p, key);
            &&& q.buffer == p.buffer.take(k) + seq![c] + p.buffer.skip(k)
            &&& q.cursor == p.cursor + 1
            &&& q.completions.len() == 0
            &&& q.completion_index == 0
        },
        key.code == KeyCode::Backspace && k < p.buffer.len() && p.cursor == byte_len(
            p.buffer.take(k),
        ) + 1 ==> {
            let q = prompt_after(p, key);
            &&& q.buffer == p.buffer.take(k) + p.buffer.skip(k + 1)
            &&& q.cursor == p.cursor - 1
            &&& q.completions.len() == 0
            &&& q.completion_index == 0
        },
        key.code == KeyCode::Backspace && p.cursor <= 0 ==> prompt_after(p, key) == p,
        key.code == KeyCode::Tab && p.completions.len() == 0 ==> prompt_after(p, key) == p,
        !(key.code is Char) && key.code != KeyCode::Backspace && key.code != KeyCode::Tab
            ==> prompt_after(p, key) == p,
{
    lemma_chars_before(p.buffer, k);
    assert(p.buffer.insert(k, c) =~= p.buffer.take(k) + seq![c] + p.buffer.skip(k));
    if k < p.buffer.len() {
        assert(p.buffer.remove(k) =~= p.buffer.take(k) + p.buffer.skip(k + 1));
    }
}

/// Tab puts the completion behind the chosen one in the place of the path, with the cursor at its
/// end; behind the last comes the first.
pub proof fn tab_takes_the_next_completion(p: PromptView, key: KeyEvent)
    requires
        key.code == KeyCode::Tab,
        0 <= p.completion_index < p.completions.len(),
    ensures
        ({
            let q = prompt_after(p, key);
            &&& q.completion_index == if p.completion_index + 1 < p.completions.len() {
                p.completion_index + 1
            } else {
                0
            }
            &&& q.buffer == p.completions[q.completion_index]
            &&& q.cursor == byte_len(q.buffer)
            &&& q.completions == p.completions
        }),
{
    let n = p.completions.len() as int;
    let i = p.completion_index;
    if i + 1 < n {
        vstd::arithmetic::div_mod::lemma_small_mod((i + 1) as nat, n as nat);
    } else {
        vstd::arithmetic::div_mod::lemma_mod_self_0(n);
    }
}

/// A key changes nothing but the path while one is typed, and the path stays one of its kind; Esc
/// goes back to typing and clears the status.
pub proof fn path_keys_change_the_path_alone(
    a: AppView,
    kind: PromptKind,
    p: PromptView,
    key: KeyEvent,
)
    ensures
        key.code == KeyCode::Esc ==> prompt_state(a, kind, p, key) == (AppView {
            mode: ModeView::Normal,
            status_message: None,
            ..a
        }),
        key.code != KeyCode::Esc ==> {
            let b = prompt_state(a, kind, p, key);
            &&& b == AppView { mode: b.mode, ..a }
            &&& kind == PromptKind::Import ==> b.mode == ModeView::Import(prompt_after(p, key))
            &&& kind == PromptKind::AddInput ==> b.mode == ModeView::AddInputDir(
                prompt_after(p, key),
            )
            &&& kind == PromptKind::AddOutput ==> b.mode == ModeView::AddOutputDir(
                prompt_after(p, key),
            )
        },
{
}

/// Enter asks after the chosen completion where there are any, and after what was typed otherwise:
/// for a file to import, whose `~/` stands for the home directory, or for a directory of the kind
/// that is to be added.
pub proof fn enter_asks_after_the_path(
    kind: PromptKind,
    p: PromptView,
    key: KeyEvent,
    home: Option<Seq<char>>,
)
    requires
        key.code == KeyCode::Enter,
        prompt_wf(p),
    ensures
        ({
            let step = prompt_step(kind, p, key, home);
            let chosen = p.completions[p.completion_index];
            let some = p.completions.len() > 0;
            &&& kind == PromptKind::Import && some ==> step == StepView::Ask(
                RequestView::ProbeImport { path: chosen },
            )
            &&& kind == PromptKind::Import && !some ==> step == StepView::Ask(
                RequestView::ProbeImport { path: expanded(p.buffer, home) },
            )
            &&& kind == PromptKind::AddInput ==> step == StepView::Ask(
                RequestView::ProbeDir {
                    path: if some {
                        chosen
                    } else {
                        p.buffer
                    },
                    is_input: true,
                },
            )
            &&& kind == PromptKind::AddOutput ==> step == StepView::Ask(
                RequestView::ProbeDir {
                    path: if some {
                        chosen
                    } else {
                        p.buffer
                    },
                    is_input: false,
                },
            )
        }),
{
}

/// Each change of the path asks for the paths that go on from it, unless nothing of it is left;
/// keys that leave it as it is, and Esc, ask for nothing.
pub proof fn changed_paths_are_completed(
    kind: PromptKind,
    p: PromptView,
    key: KeyEvent,
    home: Option<Seq<char>>,
)
    requires
        key.code != KeyCode::Enter,
    ensures
        ({
            let q = prompt_after(p, key);
            let step = prompt_step(kind, p, key, home);
            let changes = key.code is Char || key.code == KeyCode::Backspace && p.cursor > 0;
            &&& changes && q.buffer.len() > 0 ==> step == StepView::Ask(
                RequestView::Complete { pattern: expanded(q.buffer, home) + "*"@ },
            )
            &&& !changes || q.buffer.len() == 0 ==> step == StepView::Done(ActionView::Nothing)
        }),
{
}

/// The completions that were found belong to the path that is typed, with the first of them
/// chosen; the path itself stays. Where no path is typed, they change nothing.
pub proof fn found_completions_are_offered(mode: ModeView, p: PromptView, matches: Seq<Seq<char>>)
    ensures
        ({
            let q = PromptView {
                completions: kept_completions(matches),
                completion_index: 0,
                ..p
            };
            &&& completed(ModeView::Import(p), matches) == ModeView::Import(q)
            &&& completed(ModeView::AddInputDir(p), matches) == ModeView::AddInputDir(q)
            &&& completed(ModeView::AddOutputDir(p), matches) == ModeView::AddOutputDir(q)
        }),
        mode is Normal || mode is Select || mode is EditFile ==> completed(mode, matches) == mode,
{
}

/// A file that is there is copied into the active input directory, under its own name. A file
/// that is not, and one for which no directory is active, end the prompt with a status that says
/// so, and nothing is copied. What copying came to ends it as well.
pub proof fn files_are_imported_into_the_active_directory(
    a: AppView,
    path: Seq<char>,
    exists: bool,
    dir: Seq<char>,
    to: Seq<char>,
    error: Option<Seq<char>>,
)
    ensures
        exists && a.active_input_dir == Some(dir) ==> import_probed_state(a, exists) == a
            && import_step(a, path, exists) == StepView::Ask(
            RequestView::Copy { from: path, to: path_join(dir, shown_name(path)) },
        ),
        !exists ==> import_step(a, path, exists) == StepView::Done(ActionView::Nothing)
            && import_probed_state(a, exists) == (AppView {
            mode: ModeView::Normal,
            status_message: Some("File does not exist"@),
            ..a
        }),
        exists && a.active_input_dir is None ==> import_step(a, path, exists) == StepView::Done(
            ActionView::Nothing,
        ) && import_probed_state(a, exists) == (AppView {
            mode: ModeView::Normal,
            status_message: Some("No active input directory set"@),
            ..a
        }),
        error is None ==> copied_state(a, path, to, error) == (AppView {
            mode: ModeView::Normal,
            status_message: Some("Copied "@ + quoted(path) + " → "@ + quoted(to)),
            ..a
        }),
        error matches Some(e) ==> copied_state(a, path, to, error) == (AppView {
            mode: ModeView::Normal,
            status_message: Some("Copy failed: "@ + e),
            ..a
        }),
{
}

/// A directory that is not listed yet comes last in the list of its kind and is the active one;
/// one that is listed, and a path that is no directory, change no list and no active directory.
/// The other kind, the system directories and all else stay, and the prompt is over, with a
/// status that says what came of it.
pub proof fn directories_are_added_to_their_own_list(
    a: AppView,
    path: Seq<char>,
    is_input: bool,
    is_dir: bool,
)
    ensures
        ({
            let b = directory_added(a, path, is_input, is_dir);
            let new_input = forall|i: int|
                0 <= i < a.input_dirs.len() ==> !same_path(#[trigger] a.input_dirs[i], path);
            let new_output = forall|i: int|
                0 <= i < a.output_dirs.len() ==> !same_path(#[trigger] a.output_dirs[i], path);
            let new = is_input && new_input || !is_input && new_output;
            &&& b.mode is Normal
            &&& is_dir && new && is_input ==> b == AppView {
                input_dirs: a.input_dirs.push(path),
                active_input_dir: Some(path),
                mode: ModeView::Normal,
                status_message: Some("Added input: "@ + quoted(path)),
                ..a
            }
            &&& is_dir && new && !is_input ==> b == AppView {
                output_dirs: a.output_dirs.push(path),
                active_output_dir: Some(path),
                mode: ModeView::Normal,
                status_message: Some("Added output: "@ + quoted(path)),
                ..a
            }
            &&& !is_dir || !new ==> b == AppView {
                mode: ModeView::Normal,
                status_message: b.status_message,
                ..a
            }
            &&& !is_dir ==> b.status_message == Some("Not a directory"@)
            &&& is_dir && !new && is_input ==> b.status_message == Some("Already in input dirs"@)
            &&& is_dir && !new && !is_input ==> b.status_message == Some("Already in output dirs"@)
        }),
{
}

/// A path is changed where its cursor stands between two characters; keys that do not change it,
/// and Backspace at its start, can always be dealt with.
pub proof fn paths_are_changed_between_characters(p: PromptView, key: KeyEvent)
    ensures
        key.code is Char ==> (prompt_ready(p, key) <==> boundary(p.buffer, p.cursor)),
        key.code == KeyCode::Backspace && p.cursor > 0 ==> (prompt_ready(p, key) <==> boundary(
            p.buffer,
            p.cursor - 1,
        )),
        key.code == KeyCode::Backspace && p.cursor <= 0 ==> prompt_ready(p, key),
        !(key.code is Char) && key.code != KeyCode::Backspace ==> prompt_ready(p, key),
{
}

} // verus!
