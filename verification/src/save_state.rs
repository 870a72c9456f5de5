//! The states that saving and undoing go through.

use vstd::prelude::*;

use crate::plan::{FsOperationView, OperationPlan};
use crate::save_result::CancelToken;
use crate::tree::{paths_view, TreePath};
use crate::undo::{UndoTransaction, UndoTransactionView};

verus! {

/// Where a save or an undo stands.
#[derive(Debug)]
pub enum SaveState {
    /// Nothing is going on, and the buffer can be edited.
    Idle,
    /// A plan waits for a user's word.
    AwaitingConfirmation { changedtick: u64, plan: OperationPlan, overwrites: Vec<TreePath> },
    /// A worker does a plan.
    Applying { plan: OperationPlan, cancel: CancelToken, cancelled: bool },
    /// An undo waits for a user's word.
    AwaitingUndoConfirmation { transaction: UndoTransaction },
    /// A worker does an undo.
    ApplyingUndo { transaction: UndoTransaction, cancel: CancelToken, cancelled: bool },
    /// The tree has to be read again.
    Reconciling,
}

/// Where a save or an undo stands.
#[verifier::ext_equal]
pub enum SaveStateView {
    Idle,
    AwaitingConfirmation {
        changedtick: u64,
        plan: Seq<FsOperationView>,
        overwrites: Seq<Seq<Seq<char>>>,
    },
    Applying { plan: Seq<FsOperationView>, cancel: CancelToken, cancelled: bool },
    AwaitingUndoConfirmation { transaction: UndoTransactionView },
    ApplyingUndo { transaction: UndoTransactionView, cancel: CancelToken, cancelled: bool },
    Reconciling,
}

impl SaveState {
    pub open spec fn view(&self) -> SaveStateView {
        match self {
            SaveState::Idle => SaveStateView::Idle,
            SaveState::AwaitingConfirmation { changedtick, plan, overwrites } =>
                SaveStateView::AwaitingConfirmation {
                changedtick: *changedtick,
                plan: plan@,
                overwrites: paths_view(overwrites@),
            },
            SaveState::Applying { plan, cancel, cancelled } => SaveStateView::Applying {
                plan: plan@,
                cancel: *cancel,
                cancelled: *cancelled,
            },
            SaveState::AwaitingUndoConfirmation { transaction } =>
                SaveStateView::AwaitingUndoConfirmation { transaction: transaction@ },
            SaveState::ApplyingUndo { transaction, cancel, cancelled } =>
                SaveStateView::ApplyingUndo {
                transaction: transaction@,
                cancel: *cancel,
                cancelled: *cancelled,
            },
            SaveState::Reconciling => SaveStateView::Reconciling,
        }
    }
}

/// Whether a worker is running.
pub open spec fn applying(state: SaveStateView) -> bool {
    state is Applying || state is ApplyingUndo
}

} // verus!
