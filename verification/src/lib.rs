//! Verified core of the Fyler file manager.
//!
//! The directory listing is an editable text buffer: every line names one
//! entry of a tree, and saving the buffer turns its edits into file operations.
//! This crate holds the rules of that application as functions over plain
//! values: which lines are visible, how a save or an undo proceeds, what a
//! configuration or a session file means, and what each editor event makes the
//! application do. Reading files, talking to the editor and drawing stay
//! outside.

pub mod baseline;
pub mod changes;
pub mod command_laws;
pub mod commands;
pub mod commit_laws;
pub mod config;
pub mod config_laws;
pub mod desk;
pub mod desk_laws;
pub mod directory_commands;
pub mod drag_flow;
pub mod extract_flow;
pub mod feedback;
pub mod fold_laws;
pub mod folding;
pub mod fs_path;
pub mod gates;
pub mod git_refresh;
pub mod grammar;
pub mod import_flow;
pub mod journal_laws;
pub mod listing;
pub mod loading;
pub mod manifest_reader;
pub mod notice_laws;
pub mod notices;
pub mod number_laws;
pub mod nvim_locate;
pub mod options;
pub mod pane;
pub mod pane_book;
pub mod picker;
pub mod picker_laws;
pub mod plan;
pub mod plan_laws;
pub mod queue_stats;
pub mod report;
pub mod save_flow;
pub mod save_laws;
pub mod save_result;
pub mod save_state;
pub mod session;
pub mod session_laws;
pub mod settings_laws;
pub mod single;
pub mod start_laws;
pub mod startup;
pub mod text;
pub mod text_laws;
pub mod toml_doc;
pub mod tone_laws;
pub mod transfer_flow;
pub mod transfer_laws;
pub mod transfer_request;
pub mod tree;
pub mod tree_commands;
pub mod undo;
pub mod undo_format;
pub mod undo_journal;
pub mod undo_slots;
pub mod warnings;

use vstd::prelude::*;

verus! {

} // verus!
