//! What the undo journal records, what it keeps at a start, and where it is.

use vstd::prelude::*;

use crate::fs_path::FsPathView;
use crate::manifest_reader::{kind_of, manifest_state_of};
use crate::toml_doc::{lookup, Toml};
use crate::tree::EntryKind;
use crate::undo::{
    path_view, FileTime, FingerprintView, ManifestEntryView, UndoStepView, UndoTransactionView,
};
use crate::undo_journal::{
    fingerprint_entries, journal_dir, manifest_entry_entries, manifest_text_state, manifest_values,
    scan_action, state_of, step_entries, step_values, transaction_entries, transaction_path,
    Entries, JournalEntryView, JournalEnvironment, JournalState, ScanActionView, UndoJournal,
};

verus! {

/// Whether a size and a time can be recorded: the size is one of the integers of TOML, and
/// the time does not lie before the epoch.
pub open spec fn numbers_fit(size: Option<u64>, time: Option<FileTime>) -> bool {
    (size matches Some(size) ==> size <= i64::MAX) && (time matches Some(time) ==> time.secs >= 0)
}

/// Whether every number in a step can be recorded.
pub open spec fn step_numbers_fit(step: UndoStepView) -> bool {
    match step {
        UndoStepView::RemoveCreated { post, .. } => numbers_fit(post.size, post.mtime),
        UndoStepView::RemoveCopied { post, manifest, .. } => numbers_fit(post.size, post.mtime) && (
        manifest matches Some(entries) ==> forall|i: int|
            0 <= i < entries.len() ==> numbers_fit((#[trigger] entries[i]).size, entries[i].mtime)),
        UndoStepView::MoveBack { post, .. } => numbers_fit(post.size, post.mtime),
        _ => true,
    }
}

/// Whether the place that a link leads to, if there is one, is Unicode text.
pub open spec fn link_is_text(post: FingerprintView) -> bool {
    post.link_target matches Some(target) ==> target.raw is None
}

/// Whether every path in a step is Unicode text.
pub open spec fn step_is_text(step: UndoStepView) -> bool {
    match step {
        UndoStepView::RemoveCreated { path, post, .. } => path.raw is None && link_is_text(post),
        UndoStepView::RemoveCopied { path, post, .. } => path.raw is None && link_is_text(post),
        UndoStepView::MoveBack { from, to, post, .. } => from.raw is None && to.raw is None
            && link_is_text(post),
        UndoStepView::RestoreDeleted { path, .. } => path.raw is None,
        UndoStepView::RestoreOverwritten { path, .. } => path.raw is None,
    }
}

/// A transaction has a manifest just where its paths are Unicode text and its numbers can be
/// recorded. Numbers alone are an error, and paths alone are none.
pub proof fn transaction_is_recorded_where_it_can_be(
    transaction: UndoTransactionView,
    state: JournalState,
)
    ensures
        ({
            let numbers = forall|i: int|
                0 <= i < transaction.steps.len() ==> step_numbers_fit(
                    #[trigger] transaction.steps[i],
                );
            let texts = transaction.root.raw is None && forall|i: int|
                0 <= i < transaction.steps.len() ==> step_is_text(#[trigger] transaction.steps[i]);
            let manifest = transaction_entries(transaction, state);
            &&& (manifest matches Ok(Some(_))) <==> numbers && texts
            &&& numbers ==> manifest is Ok
            &&& texts ==> !(manifest matches Ok(None))
        }),
{
    lemma_steps(transaction.steps);
}

proof fn lemma_entries(entries: Seq<ManifestEntryView>)
    ensures
        manifest_values(entries) is Ok <==> forall|i: int|
            0 <= i < entries.len() ==> numbers_fit((#[trigger] entries[i]).size, entries[i].mtime),
    decreases entries.len(),
{
    if entries.len() > 0 {
        let shorter = entries.drop_last();
        let n = entries.len() - 1;
        lemma_entries(shorter);
        assert(manifest_entry_entries(entries[n]) is Ok <==> numbers_fit(
            entries[n].size,
            entries[n].mtime,
        ));
        if manifest_values(entries) is Ok {
            assert forall|i: int| 0 <= i < entries.len() implies numbers_fit(
                (#[trigger] entries[i]).size,
                entries[i].mtime,
            ) by {
                if i < n {
                    assert(shorter[i] == entries[i]);
                }
            }
        }
        if forall|i: int|
            0 <= i < entries.len() ==> numbers_fit((#[trigger] entries[i]).size, entries[i].mtime) {
            assert forall|i: int| 0 <= i < shorter.len() implies numbers_fit(
                (#[trigger] shorter[i]).size,
                shorter[i].mtime,
            ) by {
                assert(shorter[i] == entries[i]);
            }
            assert(numbers_fit(entries[n].size, entries[n].mtime));
        }
    }
}

proof fn lemma_fingerprint(post: FingerprintView)
    ensures
        fingerprint_entries(post) is Ok <==> numbers_fit(post.size, post.mtime),
        fingerprint_entries(post) matches Ok(table) ==> (table is Some <==> link_is_text(post)),
{
}

proof fn lemma_step(step: UndoStepView)
    ensures
        (step_entries(step) matches Ok(Some(_))) <==> step_numbers_fit(step) && step_is_text(step),
        step_numbers_fit(step) ==> step_entries(step) is Ok,
        step_is_text(step) ==> !(step_entries(step) matches Ok(None)),
{
    match step {
        UndoStepView::RemoveCreated { post, .. } => {
            lemma_fingerprint(post);
        },
        UndoStepView::RemoveCopied { post, manifest, .. } => {
            lemma_fingerprint(post);
            if let Some(entries) = manifest {
                lemma_entries(entries);
            }
        },
        UndoStepView::MoveBack { post, .. } => {
            lemma_fingerprint(post);
        },
        _ => {},
    }
}

proof fn lemma_steps(steps: Seq<UndoStepView>)
    ensures
        ({
            let numbers = forall|i: int|
                0 <= i < steps.len() ==> step_numbers_fit(#[trigger] steps[i]);
            let texts = forall|i: int| 0 <= i < steps.len() ==> step_is_text(#[trigger] steps[i]);
            &&& (step_values(steps) matches Ok(Some(_))) <==> numbers && texts
            &&& numbers ==> step_values(steps) is Ok
            &&& texts ==> !(step_values(steps) matches Ok(None))
        }),
    decreases steps.len(),
{
    if steps.len() > 0 {
        let shorter = steps.drop_last();
        let n = steps.len() - 1;
        lemma_steps(shorter);
        lemma_step(steps[n]);
        assert(forall|i: int| 0 <= i < n ==> #[trigger] shorter[i] == steps[i]);
        if forall|i: int| 0 <= i < steps.len() ==> step_numbers_fit(#[trigger] steps[i]) {
            assert(step_numbers_fit(steps[n]));
            assert forall|i: int| 0 <= i < shorter.len() implies step_numbers_fit(
                #[trigger] shorter[i],
            ) by {
                assert(step_numbers_fit(steps[i]));
            }
        }
        if forall|i: int| 0 <= i < steps.len() ==> step_is_text(#[trigger] steps[i]) {
            assert(step_is_text(steps[n]));
            assert forall|i: int| 0 <= i < shorter.len() implies step_is_text(
                #[trigger] shorter[i],
            ) by {
                assert(step_is_text(steps[i]));
            }
        }
        if step_values(steps) matches Ok(Some(_)) {
            assert forall|i: int| 0 <= i < steps.len() implies step_numbers_fit(#[trigger] steps[i])
                && step_is_text(steps[i]) by {
                if i < n {
                    assert(step_numbers_fit(shorter[i]) && step_is_text(shorter[i]));
                }
            }
        }
    }
}

/// A directory without a manifest, or with one that cannot be read, needs a decision under
/// its own name. One whose manifest tells of a transaction that is being prepared or undone
/// needs one too, and no other does.
pub proof fn unreadable_transactions_are_kept(
    name: Seq<char>,
    dir: FsPathView,
    source: Seq<char>,
)
    ensures
        scan_action(name, dir, None) == ScanActionView::Keep(
            JournalEntryView { id: name, state: JournalState::Preparing, dir },
        ),
        manifest_text_state(source) is None ==> scan_action(name, dir, Some(source))
            == ScanActionView::Keep(
            JournalEntryView { id: name, state: JournalState::Preparing, dir },
        ),
        scan_action(name, dir, Some(source)) is Remove <==> (manifest_text_state(
            source,
        ) matches Some((_, state)) && (state == JournalState::Committed || state
            == JournalState::Undone)),
{
}

/// Only the words for states and kinds are read as such, each as its own.
pub proof fn words_are_read_as_their_own(text: Seq<char>)
    ensures
        state_of(text) matches Some(state) ==> text == (match state {
            JournalState::Preparing => "Preparing"@,
            JournalState::Committed => "Committed"@,
            JournalState::Undoing => "Undoing"@,
            JournalState::Undone => "Undone"@,
        }),
        kind_of(text) matches Some(kind) ==> text == (match kind {
            EntryKind::File => "file"@,
            EntryKind::Dir => "dir"@,
            EntryKind::Symlink => "symlink"@,
        }),
{
}

/// A manifest tells of a state just where it holds an identifier and the word of a state.
pub proof fn manifest_tells_of_a_state(table: Entries, id: Seq<char>, state: JournalState)
    ensures
        manifest_state_of(table) == Ok::<(Seq<char>, JournalState), Seq<char>>((id, state)) <==> {
            &&& lookup(table, "id"@) == Some(Toml::Str(id))
            &&& lookup(table, "state"@) matches Some(Toml::Str(word))
            &&& state_of(word) == Some(state)
        },
{
}

/// The journal is where it was told to be; else below the place that the system has for
/// states, and below home where it has none but home. An empty place counts as none. Each
/// transaction has a directory of its own in it.
pub proof fn journal_is_in_its_place(
    environment: JournalEnvironment,
    windows: bool,
    journal: UndoJournal,
    id: Seq<char>,
)
    ensures
        ({
            let told = path_view(environment.fyler_undo_dir);
            let data = path_view(environment.local_app_data);
            let xdg = path_view(environment.xdg_state_home);
            let home = path_view(environment.home);
            let is_told = told matches Some(path) && path.text.len() > 0;
            let has_data = data matches Some(path) && path.text.len() > 0;
            let has_xdg = xdg matches Some(path) && path.text.len() > 0;
            let has_home = home matches Some(path) && path.text.len() > 0;
            let place = journal_dir(environment, windows);
            &&& is_told ==> (place matches Ok(dir) && Some(dir.base) == told && dir.names.len()
                == 0)
            &&& !is_told && windows ==> (place is Ok <==> has_data)
            &&& !is_told && windows && has_data ==> (place matches Ok(dir) && Some(dir.base)
                == data && dir.names == seq!["fyler"@, "undo"@])
            &&& !is_told && !windows ==> (place is Ok <==> has_xdg || has_home)
            &&& !is_told && !windows && has_xdg ==> (place matches Ok(dir) && Some(dir.base) == xdg
                && dir.names == seq!["fyler"@, "undo"@])
            &&& !is_told && !windows && !has_xdg && has_home ==> (place matches Ok(dir) && Some(
                dir.base,
            ) == home && dir.names == seq![".local"@, "state"@, "fyler"@, "undo"@])
        }),
        transaction_path(journal, id).base == journal.dir@,
        transaction_path(journal, id).names == seq![id],
{
}

} // verus!
