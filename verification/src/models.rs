//! The records that the timeline, the watcher and the scriptlets share.
use vstd::prelude::*;

use crate::clock::{moment_rank, Moment, Timestamp};
use crate::order::Ranked;
use crate::text::{opt_text, texts};

verus! {

/// Where a message comes from.
#[derive(Debug, Clone, Copy, PartialEq, Eq, Structural)]
pub enum MessageRole {
    Input,
    Output,
    System,
}

/// A file, or a text typed in, as the timeline shows it.
#[derive(Debug, Clone)]
pub struct ChatMessage {
    pub role: MessageRole,
    pub content: String,
    pub filepath: String,
    pub created_at: Timestamp,
    pub filename: String,
}

/// What a message says.
#[verifier::ext_equal]
pub struct MessageView {
    pub role: MessageRole,
    pub content: Seq<char>,
    pub filepath: Seq<char>,
    pub created_at: Moment,
    pub filename: Seq<char>,
}

impl View for ChatMessage {
    type V = MessageView;

    open spec fn view(&self) -> MessageView {
        MessageView {
            role: self.role,
            content: self.content@,
            filepath: self.filepath@,
            created_at: self.created_at@,
            filename: self.filename@,
        }
    }
}

/// Messages are ordered by the time of their creation.
pub open spec fn message_rank(m: MessageView) -> Seq<int> {
    moment_rank(m.created_at)
}

impl Ranked for ChatMessage {
    open spec fn rank(&self) -> Seq<int> {
        message_rank(self@)
    }

    fn comes_before(&self, other: &Self) -> (b: bool) {
        self.created_at.comes_before(&other.created_at)
    }
}

/// What the file system says of a file besides its content.
#[derive(Debug, Clone)]
pub struct FileMetadata {
    pub size: u64,
    pub extension: String,
    pub is_file: bool,
}

/// A watched file.
#[derive(Debug, Clone)]
pub struct FileEntry {
    pub path: String,
    pub created_at: Timestamp,
    pub is_text: bool,
    pub content: Option<String>,
    pub metadata: FileMetadata,
}

/// What is known of a watched file.
#[verifier::ext_equal]
pub struct EntryView {
    pub path: Seq<char>,
    pub created_at: Moment,
    pub is_text: bool,
    pub content: Option<Seq<char>>,
    pub size: int,
    pub extension: Seq<char>,
    pub is_file: bool,
}

impl View for FileEntry {
    type V = EntryView;

    open spec fn view(&self) -> EntryView {
        EntryView {
            path: self.path@,
            created_at: self.created_at@,
            is_text: self.is_text,
            content: opt_text(self.content),
            size: self.metadata.size as int,
            extension: self.metadata.extension@,
            is_file: self.metadata.is_file,
        }
    }
}

/// Entries are ordered by the time of their creation.
pub open spec fn entry_rank(e: EntryView) -> Seq<int> {
    moment_rank(e.created_at)
}

impl Ranked for FileEntry {
    open spec fn rank(&self) -> Seq<int> {
        entry_rank(self@)
    }

    fn comes_before(&self, other: &Self) -> (b: bool) {
        self.created_at.comes_before(&other.created_at)
    }
}

impl FileEntry {
    /// The same entry once more.
    pub fn copy(&self) -> (r: FileEntry)
        ensures
            r@ == self@,
    {
        FileEntry {
            path: self.path.clone(),
            created_at: self.created_at,
            is_text: self.is_text,
            content: crate::text::copy_opt(&self.content),
            metadata: FileMetadata {
                size: self.metadata.size,
                extension: self.metadata.extension.clone(),
                is_file: self.metadata.is_file,
            },
        }
    }
}

/// What a scriptlet is told about the session.
#[derive(Debug, Clone)]
pub struct ScriptletContext {
    pub latest_input_file: Option<String>,
    pub latest_output_file: Option<String>,
    pub active_input_dir: Option<String>,
    pub active_output_dir: Option<String>,
    pub input_dirs: Vec<String>,
    pub output_dirs: Vec<String>,
    pub system_dirs: Vec<String>,
    pub timestamp: Timestamp,
    pub user_message: Option<String>,
    pub agent_response: Option<String>,
}

/// What a context says.
#[verifier::ext_equal]
pub struct ContextView {
    pub latest_input_file: Option<Seq<char>>,
    pub latest_output_file: Option<Seq<char>>,
    pub active_input_dir: Option<Seq<char>>,
    pub active_output_dir: Option<Seq<char>>,
    pub input_dirs: Seq<Seq<char>>,
    pub output_dirs: Seq<Seq<char>>,
    pub system_dirs: Seq<Seq<char>>,
    pub timestamp: Moment,
    pub user_message: Option<Seq<char>>,
    pub agent_response: Option<Seq<char>>,
}

impl View for ScriptletContext {
    type V = ContextView;

    open spec fn view(&self) -> ContextView {
        ContextView {
            latest_input_file: opt_text(self.latest_input_file),
            latest_output_file: opt_text(self.latest_output_file),
            active_input_dir: opt_text(self.active_input_dir),
            active_output_dir: opt_text(self.active_output_dir),
            input_dirs: texts(self.input_dirs@),
            output_dirs: texts(self.output_dirs@),
            system_dirs: texts(self.system_dirs@),
            timestamp: self.timestamp@,
            user_message: opt_text(self.user_message),
            agent_response: opt_text(self.agent_response),
        }
    }
}

} // verus!
