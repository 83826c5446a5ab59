//! The command line, once it is parsed.
use vstd::prelude::*;

use crate::text::{opt_text, texts};

verus! {

/// Terminal UI for agentgraph agents
#[derive(Debug, Clone)]
pub struct Cli {
    /// Input directories to watch (agent inputs)
    pub input_dirs: Vec<String>,
    /// Output directories to watch (agent outputs)
    pub output_dirs: Vec<String>,
    /// System prompt directories
    pub system_dirs: Vec<String>,
    /// Script to run on startup
    pub on_startup: Option<String>,
    /// Script to run when user submits input
    pub on_submit: Option<String>,
    /// Script to run when agent output completes
    pub on_output: Option<String>,
    /// Active output directory for writing user messages (defaults to first output dir)
    pub active_output: Option<String>,
    /// History limit for displayed messages (0 = all)
    pub history_limit: usize,
    /// Use subcommand
    pub command: Option<Commands>,
}

/// The subcommands.
#[derive(Debug, Clone)]
pub enum Commands {
    /// Quick start with an agentgraph agent directory structure
    Agent {
        /// Base agent directory (e.g., agents/coder)
        agent_dir: String,
    },
}

#[verifier::ext_equal]
pub struct CliView {
    pub input_dirs: Seq<Seq<char>>,
    pub output_dirs: Seq<Seq<char>>,
    pub system_dirs: Seq<Seq<char>>,
    pub on_startup: Option<Seq<char>>,
    pub on_submit: Option<Seq<char>>,
    pub on_output: Option<Seq<char>>,
    pub active_output: Option<Seq<char>>,
    pub history_limit: int,
    pub agent_dir: Option<Seq<char>>,
}

impl View for Cli {
    type V = CliView;

    open spec fn view(&self) -> CliView {
        CliView {
            input_dirs: texts(self.input_dirs@),
            output_dirs: texts(self.output_dirs@),
            system_dirs: texts(self.system_dirs@),
            on_startup: opt_text(self.on_startup),
            on_submit: opt_text(self.on_submit),
            on_output: opt_text(self.on_output),
            active_output: opt_text(self.active_output),
            history_limit: self.history_limit as int,
            agent_dir: match self.command {
                Some(Commands::Agent { agent_dir }) => Some(agent_dir@),
                None => None,
            },
        }
    }
}

} // verus!
