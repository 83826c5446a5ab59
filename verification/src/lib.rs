//! A keyboard-driven timeline over watched directories.
pub mod text;
pub mod wrap;
pub mod order;
pub mod clock;
pub mod paths;
pub mod models;
pub mod events;
pub mod state;
pub mod submit;
pub mod normal;
pub mod select;
pub mod edit;
pub mod completion;
pub mod prompt;
pub mod keys;
pub mod size;
pub mod timeline;
pub mod style;
pub mod area;
pub mod chat;
pub mod inputbox;
pub mod promptbox;
pub mod screen;
pub mod watcher;
pub mod scriptlet;
pub mod cli;
pub mod session;
