//! What came of a list of operations.

use vstd::prelude::*;

verus! {

/// What came of one operation.
#[derive(Debug, PartialEq, Eq)]
pub enum OpOutcome {
    Success,
    Failed { error: String, progress: Option<String> },
    Skipped { reason: String },
}

/// An operation and what came of it.
#[derive(Debug, PartialEq, Eq)]
pub struct OpResult<T> {
    pub op: T,
    pub outcome: OpOutcome,
}

/// What came of a list of operations, in their order.
#[derive(Debug, PartialEq, Eq)]
pub struct CommitReport<T> {
    pub results: Vec<OpResult<T>>,
}

/// Whether some operation failed.
pub open spec fn some_failed<T>(results: Seq<OpResult<T>>) -> bool {
    exists|i: int| 0 <= i < results.len() && (#[trigger] results[i]).outcome is Failed
}

/// Whether some operation succeeded.
pub open spec fn some_succeeded<T>(results: Seq<OpResult<T>>) -> bool {
    exists|i: int| 0 <= i < results.len() && (#[trigger] results[i]).outcome is Success
}

impl<T> CommitReport<T> {
    /// Whether some operation failed.
    pub fn any_failed(&self) -> (r: bool)
        ensures
            r == some_failed(self.results@),
    {
        let mut i: usize = 0;
        while i < self.results.len()
            invariant
                i <= self.results@.len(),
                forall|j: int| 0 <= j < i ==> !((#[trigger] self.results@[j]).outcome is Failed),
            decreases self.results@.len() - i,
        {
            if let OpOutcome::Failed { .. } = &self.results[i].outcome {
                assert(self.results@[i as int].outcome is Failed);
                return true;
            }
            i = i + 1;
        }
        false
    }

    /// Whether some operation succeeded.
    pub fn any_succeeded(&self) -> (r: bool)
        ensures
            r == some_succeeded(self.results@),
    {
        let mut i: usize = 0;
        while i < self.results.len()
            invariant
                i <= self.results@.len(),
                forall|j: int| 0 <= j < i ==> !((#[trigger] self.results@[j]).outcome is Success),
            decreases self.results@.len() - i,
        {
            if let OpOutcome::Success = &self.results[i].outcome {
                assert(self.results@[i as int].outcome is Success);
                return true;
            }
            i = i + 1;
        }
        false
    }
}

/// The line for an operation and what came of it.
pub open spec fn outcome_line(operation: Seq<char>, outcome: OpOutcome) -> Seq<char> {
    match outcome {
        OpOutcome::Success => "OK  "@ + operation,
        OpOutcome::Failed { error, progress } => "NG  "@ + operation + " (reason: "@ + error@ + (
        match progress {
            Some(progress) => " / progress: "@ + progress@,
            None => Seq::empty(),
        }) + ")"@,
        OpOutcome::Skipped { reason } => "--  SKIP "@ + operation + " (reason: "@ + reason@ + ")"@,
    }
}

/// The line for an operation and what came of it.
pub fn outcome_label(operation: &str, outcome: &OpOutcome) -> (r: String)
    ensures
        r@ == outcome_line(operation@, *outcome),
{
    match outcome {
        OpOutcome::Success => "OK  ".to_owned().concat(operation),
        OpOutcome::Failed { error, progress } => {
            let mut line = "NG  ".to_owned().concat(operation).concat(" (reason: ").concat(
                error.as_str(),
            );
            if let Some(progress) = progress {
                line = line.concat(" / progress: ").concat(progress.as_str());
            }
            let line = line.concat(")");
            assert(line@ =~= outcome_line(operation@, *outcome));
            line
        },
        OpOutcome::Skipped { reason } => "--  SKIP ".to_owned().concat(operation).concat(
            " (reason: ",
        ).concat(reason.as_str()).concat(")"),
    }
}

/// What came of an operation.
#[verifier::ext_equal]
pub enum OpOutcomeView {
    Success,
    Failed { error: Seq<char>, progress: Option<Seq<char>> },
    Skipped { reason: Seq<char> },
}

impl OpOutcome {
    pub open spec fn view(&self) -> OpOutcomeView {
        match self {
            OpOutcome::Success => OpOutcomeView::Success,
            OpOutcome::Failed { error, progress } => OpOutcomeView::Failed {
                error: error@,
                progress: match progress {
                    Some(progress) => Some(progress@),
                    None => None,
                },
            },
            OpOutcome::Skipped { reason } => OpOutcomeView::Skipped { reason: reason@ },
        }
    }

    /// Whether two outcomes are the same.
    pub fn same(&self, other: &OpOutcome) -> (r: bool)
        ensures
            r == (self@ == other@),
    {
        match (self, other) {
            (OpOutcome::Success, OpOutcome::Success) => true,
            (
                OpOutcome::Failed { error, progress },
                OpOutcome::Failed { error: other_error, progress: other_progress },
            ) => *error == *other_error && (match (progress, other_progress) {
                (Some(mine), Some(theirs)) => *mine == *theirs,
                (None, None) => true,
                _ => false,
            }),
            (OpOutcome::Skipped { reason }, OpOutcome::Skipped { reason: other_reason }) => *reason
                == *other_reason,
            _ => false,
        }
    }
}

/// A report of a worker that could not be started: every operation failed for the
/// same reason.
pub fn failed_report<T>(ops: Vec<T>, error: &str) -> (r: CommitReport<T>)
    ensures
        r.results@.len() == ops@.len(),
        forall|i: int|
            0 <= i < ops@.len() ==> (#[trigger] r.results@[i]).op == ops@[i]
                && r.results@[i].outcome@ == (OpOutcomeView::Failed {
                error: error@,
                progress: None,
            }),
{
    let ghost all = ops@;
    let mut results: Vec<OpResult<T>> = Vec::new();
    for op in it: ops
        invariant
            it.seq() == all,
            results@.len() == it.index(),
            forall|i: int|
                0 <= i < results@.len() ==> (#[trigger] results@[i]).op == all[i]
                    && results@[i].outcome@ == (OpOutcomeView::Failed {
                    error: error@,
                    progress: None,
                }),
    {
        results.push(
            OpResult { op, outcome: OpOutcome::Failed { error: error.to_owned(), progress: None } },
        );
    }
    CommitReport { results }
}

/// Work that is done beside the program's own.
#[derive(Debug, Clone, Copy, PartialEq, Eq, Structural)]
pub enum Worker {
    Apply,
    Undo,
    Transfer,
    Loader,
}

/// Why work beside the program's own did not begin.
pub open spec fn start_failure(worker: Worker, error: Seq<char>) -> Seq<char> {
    (match worker {
        Worker::Apply => "Failed to start apply worker: "@,
        Worker::Undo => "Failed to start undo worker: "@,
        Worker::Transfer => "Failed to start transfer worker: "@,
        Worker::Loader => "Failed to start loader worker: "@,
    }) + error
}

/// Why work beside the program's own did not begin.
pub fn worker_failure(worker: Worker, error: &str) -> (r: String)
    ensures
        r@ == start_failure(worker, error@),
{
    let words = match worker {
        Worker::Apply => "Failed to start apply worker: ",
        Worker::Undo => "Failed to start undo worker: ",
        Worker::Transfer => "Failed to start transfer worker: ",
        Worker::Loader => "Failed to start loader worker: ",
    };
    words.to_owned().concat(error)
}

/// A worker that could not be started has done nothing.
pub proof fn failed_report_did_nothing<T>(results: Seq<OpResult<T>>)
    requires
        forall|i: int| 0 <= i < results.len() ==> (#[trigger] results[i]).outcome is Failed,
    ensures
        !some_succeeded(results),
        results.len() > 0 ==> some_failed(results),
{
    if results.len() > 0 {
        assert(results[0].outcome is Failed);
    }
}

} // verus!
