//! The lines that tell a user what an undo will do and has done.

use vstd::prelude::*;

use crate::report::{outcome_label, outcome_line, some_failed, CommitReport, OpResult};
use crate::text::texts;
use crate::undo::{UndoStep, UndoStepStatus, UndoStepView, UndoTransaction};
use crate::undo_journal::{state_text, JournalEntry, JournalState};

verus! {

/// The line for a step.
pub open spec fn step_line(step: UndoStepView) -> Seq<char> {
    match step {
        UndoStepView::RemoveCreated { path, .. } => "UNDO CREATE "@ + path.text,
        UndoStepView::RemoveCopied { path, .. } => "UNDO COPY "@ + path.text,
        UndoStepView::MoveBack { from, to, .. } => "UNDO MOVE "@ + to.text + " → "@ + from.text,
        UndoStepView::RestoreDeleted { path, .. } => "UNDO DELETE "@ + path.text,
        UndoStepView::RestoreOverwritten { path, .. } => "UNDO OVERWRITE "@ + path.text,
    }
}

/// The line for a step.
pub fn undo_step_label(step: &UndoStep) -> (r: String)
    ensures
        r@ == step_line(step@),
{
    match step {
        UndoStep::RemoveCreated { path, .. } => "UNDO CREATE ".to_owned().concat(
            path.text.as_str(),
        ),
        UndoStep::RemoveCopied { path, .. } => "UNDO COPY ".to_owned().concat(path.text.as_str()),
        UndoStep::MoveBack { from, to, .. } => "UNDO MOVE ".to_owned().concat(
            to.text.as_str(),
        ).concat(" → ").concat(from.text.as_str()),
        UndoStep::RestoreDeleted { path, .. } => "UNDO DELETE ".to_owned().concat(
            path.text.as_str(),
        ),
        UndoStep::RestoreOverwritten { path, .. } => "UNDO OVERWRITE ".to_owned().concat(
            path.text.as_str(),
        ),
    }
}

/// The lines for the steps that have a status: each step, and after one that
/// will not be undone the reason.
pub open spec fn plan_lines(steps: Seq<UndoStep>, statuses: Seq<UndoStepStatus>) -> Seq<Seq<char>>
    decreases steps.len(),
{
    if steps.len() == 0 || statuses.len() == 0 {
        Seq::empty()
    } else {
        let line = seq![step_line(steps[0]@)];
        let reason = match statuses[0] {
            UndoStepStatus::Rejected { reason } => seq!["  [対象外] "@ + reason@],
            UndoStepStatus::Ready => Seq::empty(),
        };
        line + reason + plan_lines(steps.drop_first(), statuses.drop_first())
    }
}

/// The lines of the question whether to undo.
pub fn undo_plan_lines(transaction: &UndoTransaction, statuses: &Vec<UndoStepStatus>) -> (r: Vec<
    String,
>)
    ensures
        texts(r@) == plan_lines(transaction.steps@, statuses@),
{
    let mut lines: Vec<String> = Vec::new();
    let mut i: usize = 0;
    let ghost steps = transaction.steps@;
    assert(steps.skip(0) =~= steps);
    assert(statuses@.skip(0) =~= statuses@);
    assert(texts(lines@) =~= Seq::empty());
    while i < transaction.steps.len() && i < statuses.len()
        invariant
            i <= transaction.steps@.len(),
            i <= statuses@.len(),
            steps == transaction.steps@,
            texts(lines@) + plan_lines(steps.skip(i as int), statuses@.skip(i as int))
                == plan_lines(steps, statuses@),
        decreases transaction.steps@.len() - i,
    {
        let ghost rest = steps.skip(i as int);
        let ghost rest_statuses = statuses@.skip(i as int);
        let ghost before = texts(lines@);
        proof {
            assert(rest.drop_first() =~= steps.skip(i + 1));
            assert(rest_statuses.drop_first() =~= statuses@.skip(i + 1));
            assert(rest[0] == steps[i as int]);
            assert(rest_statuses[0] == statuses@[i as int]);
        }
        lines.push(undo_step_label(&transaction.steps[i]));
        assert(texts(lines@) =~= before + seq![step_line(rest[0]@)]);
        if let UndoStepStatus::Rejected { reason } = &statuses[i] {
            lines.push("  [対象外] ".to_owned().concat(reason.as_str()));
            assert(texts(lines@) =~= before + seq![step_line(rest[0]@)] + seq![
                "  [対象外] "@ + reason@,
            ]);
        }
        i = i + 1;
        assert(texts(lines@) + plan_lines(steps.skip(i as int), statuses@.skip(i as int))
            =~= before + plan_lines(rest, rest_statuses));
    }
    assert(plan_lines(steps.skip(i as int), statuses@.skip(i as int)) =~= Seq::empty());
    assert(texts(lines@) =~= plan_lines(steps, statuses@));
    lines
}

/// The lines for what came of the steps.
pub open spec fn report_lines(results: Seq<OpResult<UndoStep>>) -> Seq<Seq<char>> {
    results.map_values(
        |result: OpResult<UndoStep>| outcome_line(step_line(result.op@), result.outcome),
    )
}

/// The lines for what came of an undo, and whether some step failed.
pub fn undo_report_lines(report: &CommitReport<UndoStep>) -> (r: (Vec<String>, bool))
    ensures
        texts(r.0@) == report_lines(report.results@),
        r.1 == some_failed(report.results@),
{
    let mut lines: Vec<String> = Vec::new();
    let mut i: usize = 0;
    while i < report.results.len()
        invariant
            i <= report.results@.len(),
            lines@.len() == i,
            forall|j: int|
                0 <= j < i ==> (#[trigger] lines@[j])@ == report_lines(report.results@)[j],
        decreases report.results@.len() - i,
    {
        let result = &report.results[i];
        lines.push(outcome_label(undo_step_label(&result.op).as_str(), &result.outcome));
        i = i + 1;
    }
    assert(texts(lines@) =~= report_lines(report.results@));
    (lines, report.any_failed())
}

/// The line for a transaction that a start has found.
pub open spec fn recovery_line(entry: JournalEntry) -> Seq<char> {
    entry.id@ + ": "@ + state_text(entry.state) + " ("@ + entry.dir@.text + ")"@
}

/// The lines for the transactions that a start has found.
pub fn recovery_descriptions(entries: &Vec<JournalEntry>) -> (r: Vec<String>)
    ensures
        texts(r@) == entries@.map_values(|entry: JournalEntry| recovery_line(entry)),
{
    let mut lines: Vec<String> = Vec::new();
    let mut i: usize = 0;
    while i < entries.len()
        invariant
            i <= entries@.len(),
            lines@.len() == i,
            forall|j: int| 0 <= j < i ==> (#[trigger] lines@[j])@ == recovery_line(entries@[j]),
        decreases entries@.len() - i,
    {
        let entry = &entries[i];
        let line = entry.id.clone().concat(": ").concat(journal_state_label(entry.state)).concat(
            " (",
        ).concat(entry.dir.text.as_str()).concat(")");
        lines.push(line);
        i = i + 1;
    }
    assert(texts(lines@) =~= entries@.map_values(|entry: JournalEntry| recovery_line(entry)));
    lines
}

/// The word for a state.
pub fn journal_state_label(state: JournalState) -> (r: &'static str)
    ensures
        r@ == state_text(state),
{
    state.as_str()
}

/// Whether a start asks what to do with the found transactions: when one of
/// them is being prepared or undone.
pub fn should_show_undo_recovery(entries: &[JournalEntry]) -> (r: bool)
    ensures
        r == exists|i: int|
            0 <= i < entries@.len() && ((#[trigger] entries@[i]).state == JournalState::Preparing
                || entries@[i].state == JournalState::Undoing),
{
    let mut i: usize = 0;
    while i < entries.len()
        invariant
            i <= entries@.len(),
            forall|j: int|
                0 <= j < i ==> (#[trigger] entries@[j]).state != JournalState::Preparing
                    && entries@[j].state != JournalState::Undoing,
        decreases entries@.len() - i,
    {
        if entries[i].state == JournalState::Preparing || entries[i].state
            == JournalState::Undoing {
            return true;
        }
        i = i + 1;
    }
    false
}

} // verus!
