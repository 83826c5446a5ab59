//! The state of the interface.
use vstd::prelude::*;

use crate::models::{ChatMessage, MessageView};
use crate::submit::heights;
use crate::text::{byte_len, opt_text, texts};

verus! {

/// What the keys mean.
#[derive(Debug, Clone, PartialEq)]
pub enum AppMode {
    /// Normal mode: typing messages into the input box
    Normal,
    /// Select mode: navigating messages in the chat log with a cursor
    Select { cursor_index: usize },
    /// Edit mode: editing a selected file's content in-place using the shared input box
    EditFile { target_path: String, dirty: bool },
    /// Import mode: typing a file path to copy into active input dir
    Import {
        buffer: String,
        cursor: usize,
        completions: Vec<String>,
        completion_index: usize,
    },
    /// Add input directory: type path to add to input_dirs
    AddInputDir {
        buffer: String,
        cursor: usize,
        completions: Vec<String>,
        completion_index: usize,
    },
    /// Add output directory: type path to add to output_dirs
    AddOutputDir {
        buffer: String,
        cursor: usize,
        completions: Vec<String>,
        completion_index: usize,
    },
}

/// A path that is being typed, with the completions found for it.
#[verifier::ext_equal]
pub struct PromptView {
    pub buffer: Seq<char>,
    pub cursor: int,
    pub completions: Seq<Seq<char>>,
    pub completion_index: int,
}

#[verifier::ext_equal]
pub enum ModeView {
    Normal,
    Select { cursor_index: int },
    EditFile { target_path: Seq<char>, dirty: bool },
    Import(PromptView),
    AddInputDir(PromptView),
    AddOutputDir(PromptView),
}

pub open spec fn prompt_view(
    buffer: String,
    cursor: usize,
    completions: Vec<String>,
    completion_index: usize,
) -> PromptView {
    PromptView {
        buffer: buffer@,
        cursor: cursor as int,
        completions: texts(completions@),
        completion_index: completion_index as int,
    }
}

impl View for AppMode {
    type V = ModeView;

    open spec fn view(&self) -> ModeView {
        match self {
            AppMode::Normal => ModeView::Normal,
            AppMode::Select { cursor_index } => ModeView::Select {
                cursor_index: *cursor_index as int,
            },
            AppMode::EditFile { target_path, dirty } => ModeView::EditFile {
                target_path: target_path@,
                dirty: *dirty,
            },
            AppMode::Import { buffer, cursor, completions, completion_index } => ModeView::Import(
                prompt_view(*buffer, *cursor, *completions, *completion_index),
            ),
            AppMode::AddInputDir { buffer, cursor, completions, completion_index } =>
                ModeView::AddInputDir(
                    prompt_view(*buffer, *cursor, *completions, *completion_index),
                ),
            AppMode::AddOutputDir { buffer, cursor, completions, completion_index } =>
                ModeView::AddOutputDir(
                    prompt_view(*buffer, *cursor, *completions, *completion_index),
                ),
        }
    }
}

/// The interface: the timeline, the input box, and the directories.
pub struct App {
    pub messages: Vec<ChatMessage>,
    pub input_text: String,
    pub input_cursor: usize,
    pub history: Vec<String>,
    pub history_index: isize,
    /// How many messages the timeline keeps (0 = all)
    pub history_limit: usize,
    pub scroll_offset: usize,
    pub scroll_to_bottom: bool,
    pub chat_area_height: u16,
    /// Cached inner width of the input area (excluding borders), used for wrapped cursor nav
    pub input_inner_width: u16,
    pub active_input_dir: Option<String>,
    pub active_output_dir: Option<String>,
    pub input_dirs: Vec<String>,
    pub output_dirs: Vec<String>,
    pub system_dirs: Vec<String>,
    pub should_quit: bool,
    pub status_message: Option<String>,
    pub multiline: bool,
    pub mode: AppMode,
    /// How many lines each message occupies (for scroll calculation in select mode)
    pub message_line_offsets: Vec<usize>,
    pub on_submit_script: Option<String>,
    pub on_output_script: Option<String>,
}

/// What the interface holds.
#[verifier::ext_equal]
pub struct AppView {
    pub messages: Seq<MessageView>,
    pub input_text: Seq<char>,
    pub input_cursor: int,
    pub history: Seq<Seq<char>>,
    pub history_index: int,
    pub history_limit: int,
    pub scroll_offset: int,
    pub scroll_to_bottom: bool,
    pub chat_area_height: u16,
    pub input_inner_width: u16,
    pub active_input_dir: Option<Seq<char>>,
    pub active_output_dir: Option<Seq<char>>,
    pub input_dirs: Seq<Seq<char>>,
    pub output_dirs: Seq<Seq<char>>,
    pub system_dirs: Seq<Seq<char>>,
    pub should_quit: bool,
    pub status_message: Option<Seq<char>>,
    pub multiline: bool,
    pub mode: ModeView,
    pub message_line_offsets: Seq<usize>,
    pub on_submit_script: Option<Seq<char>>,
    pub on_output_script: Option<Seq<char>>,
}

/// The views of a list of messages.
pub open spec fn message_views(v: Seq<ChatMessage>) -> Seq<MessageView> {
    v.map_values(|m: ChatMessage| m@)
}

impl View for App {
    type V = AppView;

    open spec fn view(&self) -> AppView {
        AppView {
            messages: message_views(self.messages@),
            input_text: self.input_text@,
            input_cursor: self.input_cursor as int,
            history: texts(self.history@),
            history_index: self.history_index as int,
            history_limit: self.history_limit as int,
            scroll_offset: self.scroll_offset as int,
            scroll_to_bottom: self.scroll_to_bottom,
            chat_area_height: self.chat_area_height,
            input_inner_width: self.input_inner_width,
            active_input_dir: opt_text(self.active_input_dir),
            active_output_dir: opt_text(self.active_output_dir),
            input_dirs: texts(self.input_dirs@),
            output_dirs: texts(self.output_dirs@),
            system_dirs: texts(self.system_dirs@),
            should_quit: self.should_quit,
            status_message: opt_text(self.status_message),
            multiline: self.multiline,
            mode: self.mode@,
            message_line_offsets: self.message_line_offsets@,
            on_submit_script: opt_text(self.on_submit_script),
            on_output_script: opt_text(self.on_output_script),
        }
    }
}

/// The cursor of a prompt lies within its text, and the chosen completion among those found.
pub open spec fn prompt_wf(p: PromptView) -> bool {
    &&& 0 <= p.cursor <= byte_len(p.buffer)
    &&& 0 <= p.completion_index
    &&& p.completion_index < p.completions.len() || p.completion_index == 0
}

pub open spec fn mode_wf(m: ModeView) -> bool {
    match m {
        ModeView::Import(p) => prompt_wf(p),
        ModeView::AddInputDir(p) => prompt_wf(p),
        ModeView::AddOutputDir(p) => prompt_wf(p),
        _ => true,
    }
}

/// The cursor lies within the input, the history index, which is -1 when no entry is recalled,
/// among the history, and the lines on record are those that the messages take.
pub open spec fn wf(a: AppView) -> bool {
    &&& 0 <= a.input_cursor <= byte_len(a.input_text)
    &&& -1 <= a.history_index < a.history.len()
    &&& a.history.len() <= isize::MAX
    &&& a.message_line_offsets == heights(a.messages)
    &&& mode_wf(a.mode)
}

/// The state of a fresh interface.
pub open spec fn fresh() -> AppView {
    AppView {
        messages: Seq::empty(),
        input_text: Seq::empty(),
        input_cursor: 0,
        history: Seq::empty(),
        history_index: -1,
        history_limit: 0,
        scroll_offset: 0,
        scroll_to_bottom: false,
        chat_area_height: 0,
        input_inner_width: 80,
        active_input_dir: None,
        active_output_dir: None,
        input_dirs: Seq::empty(),
        output_dirs: Seq::empty(),
        system_dirs: Seq::empty(),
        should_quit: false,
        status_message: None,
        multiline: false,
        mode: ModeView::Normal,
        message_line_offsets: Seq::empty(),
        on_submit_script: None,
        on_output_script: None,
    }
}

/// The state with another line of status.
pub open spec fn with_status(a: AppView, status: Seq<char>) -> AppView {
    AppView { status_message: Some(status), ..a }
}

impl App {
    /// A fresh interface, with nothing in it.
    pub fn new() -> (app: App)
        ensures
            app@ == fresh(),
            wf(app@),
    {
        let app = App {
            messages: Vec::new(),
            input_text: String::new(),
            input_cursor: 0,
            history: Vec::new(),
            history_index: -1,
            history_limit: 0,
            scroll_offset: 0,
            scroll_to_bottom: false,
            chat_area_height: 0,
            input_inner_width: 80,
            active_input_dir: None,
            active_output_dir: None,
            input_dirs: Vec::new(),
            output_dirs: Vec::new(),
            system_dirs: Vec::new(),
            should_quit: false,
            status_message: None,
            multiline: false,
            mode: AppMode::Normal,
            message_line_offsets: Vec::new(),
            on_submit_script: None,
            on_output_script: None,
        };
        assert(app@ =~= fresh());
        assert(heights(fresh().messages) =~= Seq::<usize>::empty());
        app
    }

    /// Shows a line of status.
    pub(crate) fn set_status(&mut self, status: String)
        ensures
            final(self)@ == with_status(old(self)@, status@),
    {
        self.status_message = Some(status);
    }
}

/// A fresh interface has no messages, nothing typed, nothing to recall and no directories, waits
/// for a message, and does not quit.
pub proof fn a_fresh_interface_is_empty()
    ensures
        wf(fresh()),
        fresh().messages.len() == 0,
        fresh().input_text.len() == 0,
        fresh().history.len() == 0,
        fresh().history_index == -1,
        fresh().history_limit == 0,
        fresh().scroll_offset == 0,
        !fresh().scroll_to_bottom,
        fresh().input_dirs.len() == 0,
        fresh().output_dirs.len() == 0,
        fresh().system_dirs.len() == 0,
        fresh().active_input_dir is None,
        fresh().active_output_dir is None,
        fresh().on_submit_script is None,
        fresh().on_output_script is None,
        fresh().status_message is None,
        !fresh().should_quit,
        !fresh().multiline,
        fresh().mode is Normal,
{
    assert(heights(fresh().messages) =~= Seq::<usize>::empty());
}

} // verus!
