//! The choices that a user can set.

use vstd::prelude::*;

verus! {

/// Whether directories stand before files.
#[derive(Debug, Clone, Copy, PartialEq, Eq, Structural)]
pub enum SortOrder {
    DirsFirst,
    Mixed,
}

/// What entries are sorted by.
#[derive(Debug, Clone, Copy, PartialEq, Eq, Structural)]
pub enum SortKey {
    Name,
    Date,
    Size,
    Extension,
}

/// Which terminal is opened.
#[derive(Debug, Clone, Copy, PartialEq, Eq, Structural)]
pub enum TerminalKind {
    Auto,
    WindowsTerminal,
    PowerShell,
    Cmd,
}

/// How much the question before a save shows.
#[derive(Debug, Clone, Copy, PartialEq, Eq, Structural)]
pub enum ConfirmDetail {
    Full,
    Summary,
}

/// How a tree is scanned and sorted.
#[derive(Debug, Clone, Copy, PartialEq, Eq, Structural)]
pub struct ScanOptions {
    pub show_hidden: bool,
    pub sort: SortOrder,
    pub key: SortKey,
    pub reverse: bool,
}

} // verus!
