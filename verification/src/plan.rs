//! What a save does to the file system.

use vstd::prelude::*;

use crate::grammar::EntryId;
use crate::report::{CommitReport, OpResult};
use crate::tree::{paths_view, EntryKind, TreePath};

verus! {

/// One operation on the file system.
#[derive(Debug, PartialEq, Eq)]
pub enum FsOperation {
    Create { path: TreePath, kind: EntryKind },
    Delete { id: EntryId, path: TreePath },
    Move { id: EntryId, from: TreePath, to: TreePath },
    Copy { src: EntryId, from: TreePath, to: TreePath },
}

/// What an operation is.
#[verifier::ext_equal]
pub enum FsOperationView {
    Create { path: Seq<Seq<char>>, kind: EntryKind },
    Delete { id: EntryId, path: Seq<Seq<char>> },
    Move { id: EntryId, from: Seq<Seq<char>>, to: Seq<Seq<char>> },
    Copy { src: EntryId, from: Seq<Seq<char>>, to: Seq<Seq<char>> },
}

impl FsOperation {
    pub open spec fn view(&self) -> FsOperationView {
        match self {
            FsOperation::Create { path, kind } => FsOperationView::Create {
                path: path@,
                kind: *kind,
            },
            FsOperation::Delete { id, path } => FsOperationView::Delete { id: *id, path: path@ },
            FsOperation::Move { id, from, to } => FsOperationView::Move {
                id: *id,
                from: from@,
                to: to@,
            },
            FsOperation::Copy { src, from, to } => FsOperationView::Copy {
                src: *src,
                from: from@,
                to: to@,
            },
        }
    }

    /// The same operation once more.
    pub fn copy(&self) -> (r: FsOperation)
        ensures
            r@ == self@,
    {
        match self {
            FsOperation::Create { path, kind } => FsOperation::Create {
                path: path.copy(),
                kind: *kind,
            },
            FsOperation::Delete { id, path } => FsOperation::Delete { id: *id, path: path.copy() },
            FsOperation::Move { id, from, to } => FsOperation::Move {
                id: *id,
                from: from.copy(),
                to: to.copy(),
            },
            FsOperation::Copy { src, from, to } => FsOperation::Copy {
                src: *src,
                from: from.copy(),
                to: to.copy(),
            },
        }
    }

    /// Whether two operations are the same.
    pub fn same(&self, other: &FsOperation) -> (r: bool)
        ensures
            r == (self@ == other@),
    {
        match (self, other) {
            (
                FsOperation::Create { path, kind },
                FsOperation::Create { path: other_path, kind: other_kind },
            ) => path.same(other_path) && *kind == *other_kind,
            (
                FsOperation::Delete { id, path },
                FsOperation::Delete { id: other_id, path: other_path },
            ) => *id == *other_id && path.same(other_path),
            (
                FsOperation::Move { id, from, to },
                FsOperation::Move { id: other_id, from: other_from, to: other_to },
            ) => *id == *other_id && from.same(other_from) && to.same(other_to),
            (
                FsOperation::Copy { src, from, to },
                FsOperation::Copy { src: other_src, from: other_from, to: other_to },
            ) => *src == *other_src && from.same(other_from) && to.same(other_to),
            _ => false,
        }
    }
}

/// The operations of a save, in the order in which they are done.
#[derive(Debug, PartialEq, Eq)]
pub struct OperationPlan {
    pub ops: Vec<FsOperation>,
}

/// What operations are.
pub open spec fn ops_view(ops: Seq<FsOperation>) -> Seq<FsOperationView> {
    ops.map_values(|op: FsOperation| op@)
}

impl OperationPlan {
    pub open spec fn view(&self) -> Seq<FsOperationView> {
        ops_view(self.ops@)
    }

    /// The same plan once more.
    pub fn copy(&self) -> (r: OperationPlan)
        ensures
            r@ == self@,
    {
        let mut ops: Vec<FsOperation> = Vec::new();
        let mut i: usize = 0;
        while i < self.ops.len()
            invariant
                i <= self.ops@.len(),
                ops@.len() == i,
                forall|j: int| 0 <= j < i ==> (#[trigger] ops@[j])@ == self.ops@[j]@,
            decreases self.ops@.len() - i,
        {
            ops.push(self.ops[i].copy());
            i = i + 1;
        }
        let plan = OperationPlan { ops };
        assert(plan@ =~= self@);
        plan
    }

    /// Whether two plans are the same.
    pub fn same(&self, other: &OperationPlan) -> (r: bool)
        ensures
            r == (self@ == other@),
    {
        if self.ops.len() != other.ops.len() {
            assert(self@.len() != other@.len());
            return false;
        }
        let mut i: usize = 0;
        while i < self.ops.len()
            invariant
                i <= self.ops@.len() == other.ops@.len(),
                forall|j: int| 0 <= j < i ==> #[trigger] self@[j] == other@[j],
            decreases self.ops@.len() - i,
        {
            if !self.ops[i].same(&other.ops[i]) {
                assert(self@[i as int] != other@[i as int]);
                return false;
            }
            assert(self@[i as int] == other@[i as int]);
            i = i + 1;
        }
        assert(self@ =~= other@);
        true
    }
}

/// Why the lines cannot be saved.
#[derive(Debug, PartialEq, Eq)]
pub enum ValidateError {
    /// The number at the beginning of a line is none.
    BrokenIdPrefix { line: usize },
    /// A name holds a character that names may not hold.
    ReservedChar { line: usize, ch: char },
    /// A directory stands where an operation leads.
    TargetOccupiedByDirectory { path: TreePath },
    /// Any other reason, in words.
    Other { message: String },
}

/// Why the lines cannot be saved.
#[verifier::ext_equal]
pub enum ValidateErrorView {
    BrokenIdPrefix { line: usize },
    ReservedChar { line: usize, ch: char },
    TargetOccupiedByDirectory { path: Seq<Seq<char>> },
    Other { message: Seq<char> },
}

impl ValidateError {
    pub open spec fn view(&self) -> ValidateErrorView {
        match self {
            ValidateError::BrokenIdPrefix { line } => ValidateErrorView::BrokenIdPrefix {
                line: *line,
            },
            ValidateError::ReservedChar { line, ch } => ValidateErrorView::ReservedChar {
                line: *line,
                ch: *ch,
            },
            ValidateError::TargetOccupiedByDirectory { path } => {
                ValidateErrorView::TargetOccupiedByDirectory { path: path@ }
            },
            ValidateError::Other { message } => ValidateErrorView::Other { message: message@ },
        }
    }

    /// Whether two reasons are the same.
    pub fn same(&self, other: &ValidateError) -> (r: bool)
        ensures
            r == (self@ == other@),
    {
        match (self, other) {
            (
                ValidateError::BrokenIdPrefix { line },
                ValidateError::BrokenIdPrefix { line: other_line },
            ) => *line == *other_line,
            (
                ValidateError::ReservedChar { line, ch },
                ValidateError::ReservedChar { line: other_line, ch: other_ch },
            ) => *line == *other_line && *ch == *other_ch,
            (
                ValidateError::TargetOccupiedByDirectory { path },
                ValidateError::TargetOccupiedByDirectory { path: other_path },
            ) => path.same(other_path),
            (
                ValidateError::Other { message },
                ValidateError::Other { message: other_message },
            ) => *message == *other_message,
            _ => false,
        }
    }
}

/// Reasons why lines cannot be saved.
pub open spec fn errors_view(errors: Seq<ValidateError>) -> Seq<ValidateErrorView> {
    errors.map_values(|error: ValidateError| error@)
}

/// Whether two lists of reasons are the same.
pub fn same_errors(a: &Vec<ValidateError>, b: &Vec<ValidateError>) -> (r: bool)
    ensures
        r == (errors_view(a@) == errors_view(b@)),
{
    if a.len() != b.len() {
        assert(errors_view(a@).len() != errors_view(b@).len());
        return false;
    }
    let mut i: usize = 0;
    while i < a.len()
        invariant
            i <= a@.len() == b@.len(),
            forall|j: int| 0 <= j < i ==> #[trigger] errors_view(a@)[j] == errors_view(b@)[j],
        decreases a@.len() - i,
    {
        if !a[i].same(&b[i]) {
            assert(errors_view(a@)[i as int] != errors_view(b@)[i as int]);
            return false;
        }
        assert(errors_view(a@)[i as int] == errors_view(b@)[i as int]);
        i = i + 1;
    }
    assert(errors_view(a@) =~= errors_view(b@));
    true
}

/// A reason for each place that a directory occupies.
pub open spec fn occupied_errors(paths: Seq<Seq<Seq<char>>>) -> Seq<ValidateErrorView> {
    paths.map_values(
        |path: Seq<Seq<char>>| ValidateErrorView::TargetOccupiedByDirectory { path },
    )
}

/// A reason for each place that a directory occupies.
pub fn occupied_by_directory(paths: Vec<TreePath>) -> (r: Vec<ValidateError>)
    ensures
        errors_view(r@) == occupied_errors(paths_view(paths@)),
{
    let ghost all = paths@;
    let mut errors: Vec<ValidateError> = Vec::new();
    for path in it: paths
        invariant
            it.seq() == all,
            errors@.len() == it.index(),
            forall|j: int|
                0 <= j < errors@.len() ==> (#[trigger] errors@[j])@
                    == (ValidateErrorView::TargetOccupiedByDirectory { path: all[j]@ }),
    {
        errors.push(ValidateError::TargetOccupiedByDirectory { path });
    }
    assert(errors_view(errors@) =~= occupied_errors(paths_view(all)));
    errors
}

/// What a report says of the operations of a save.
pub open spec fn report_view(results: Seq<OpResult<FsOperation>>) -> Seq<
    (FsOperationView, crate::report::OpOutcomeView),
> {
    results.map_values(|result: OpResult<FsOperation>| (result.op@, result.outcome@))
}

/// Whether two reports are the same.
pub fn same_report(a: &CommitReport<FsOperation>, b: &CommitReport<FsOperation>) -> (r: bool)
    ensures
        r == (report_view(a.results@) == report_view(b.results@)),
{
    let ghost mine = report_view(a.results@);
    let ghost theirs = report_view(b.results@);
    if a.results.len() != b.results.len() {
        assert(mine.len() != theirs.len());
        return false;
    }
    let mut i: usize = 0;
    while i < a.results.len()
        invariant
            i <= a.results@.len() == b.results@.len(),
            mine == report_view(a.results@),
            theirs == report_view(b.results@),
            forall|j: int| 0 <= j < i ==> #[trigger] mine[j] == theirs[j],
        decreases a.results@.len() - i,
    {
        if !a.results[i].op.same(&b.results[i].op) || !a.results[i].outcome.same(
            &b.results[i].outcome,
        ) {
            assert(mine[i as int] != theirs[i as int]);
            return false;
        }
        assert(mine[i as int] == theirs[i as int]);
        i = i + 1;
    }
    assert(mine =~= theirs);
    true
}

} // verus!
