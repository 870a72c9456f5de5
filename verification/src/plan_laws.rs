//! What a user is warned of before a plan is done, and what is kept to undo it.

use vstd::prelude::*;

use crate::baseline::{EntryMeta, EntryView};
use crate::plan::FsOperationView;
use crate::report::{outcome_line, some_failed, some_succeeded, OpOutcome, OpResult};
use crate::tree::{is_above, EntryKind};
use crate::undo::{UndoStep, UndoStepStatus, UndoStepView, UndoTransaction, UndoTransactionView};
use crate::undo_format::{plan_lines, report_lines, step_line};
use crate::undo_slots::{recorded, slot_names};
use crate::warnings::{
    cloud_warnings, delete_warnings, deletions, entries_within, expected_warnings, lacks_size,
    overwrite_clouds, overwrite_total, overwrite_warnings, some_lack_size, source_warnings,
    total_size, BackupReason, OverwriteSize, OverwriteView, PlanWarningView, SourceFact,
};

verus! {

/// Whether an operation reads the contents of a place, to move or to copy them.
pub open spec fn reads(op: FsOperationView, path: Seq<Seq<char>>) -> bool {
    match op {
        FsOperationView::Move { from, .. } => from == path,
        FsOperationView::Copy { from, .. } => from == path,
        _ => false,
    }
}

/// Whether an operation deletes a place: it deletes that place or one above it.
pub open spec fn deletes(op: FsOperationView, path: Seq<Seq<char>>) -> bool {
    op matches FsOperationView::Delete { path: gone, .. } && (gone == path || is_above(gone, path))
}

/// Whether what an operation reads has to be fetched, and how much that is.
pub open spec fn fetched_to_read(
    ops: Seq<FsOperationView>,
    facts: Seq<SourceFact>,
    path: Seq<Seq<char>>,
    size: Option<u64>,
    i: int,
) -> bool {
    &&& 0 <= i < ops.len() && i < facts.len()
    &&& reads(ops[i], path)
    &&& facts[i].placeholder && facts[i].size == size
}

/// Whether what an operation deletes has to be fetched, and how much that is.
pub open spec fn fetched_to_keep(
    ops: Seq<FsOperationView>,
    entries: Seq<EntryView>,
    metas: Map<u64, EntryMeta>,
    path: Seq<Seq<char>>,
    size: Option<u64>,
    i: int,
    k: int,
) -> bool {
    &&& 0 <= i < ops.len() && 0 <= k < entries.len()
    &&& deletes(ops[i], entries[k].path) && entries[k].path == path
    &&& metas.contains_key(entries[k].id.0)
    &&& metas[entries[k].id.0].is_placeholder && metas[entries[k].id.0].size == size
}

/// Whether what is overwritten has to be fetched, and how much that is.
pub open spec fn fetched_to_overwrite(
    overwrites: Seq<OverwriteView>,
    path: Seq<Seq<char>>,
    size: Option<u64>,
    j: int,
) -> bool {
    &&& 0 <= j < overwrites.len()
    &&& overwrites[j].placeholder && overwrites[j].path == path
    &&& size == (match overwrites[j].size {
        OverwriteSize::Known(n) => Some(n),
        _ => None,
    })
}

/// A user is warned of fetching just what has to be fetched: what is moved or copied, what
/// is deleted with all below it, and what is overwritten, each with its own size.
pub proof fn fetching_is_told(
    ops: Seq<FsOperationView>,
    entries: Seq<EntryView>,
    metas: Map<u64, EntryMeta>,
    facts: Seq<SourceFact>,
    overwrites: Seq<OverwriteView>,
    path: Seq<Seq<char>>,
    size: Option<u64>,
)
    ensures
        expected_warnings(ops, entries, metas, facts, overwrites).contains(
            PlanWarningView::Hydration { path, size },
        ) <==> {
            ||| exists|i: int| #[trigger] fetched_to_read(ops, facts, path, size, i)
            ||| exists|i: int, k: int| #[trigger]
                fetched_to_keep(ops, entries, metas, path, size, i, k)
            ||| exists|j: int| #[trigger] fetched_to_overwrite(overwrites, path, size, j)
        },
{
    let w = PlanWarningView::Hydration { path, size };
    let read = source_warnings(ops, facts);
    let kept = delete_warnings(ops, entries, metas);
    let lost = overwrite_warnings(overwrites);
    lemma_in_three(read, kept, lost, w);
    lemma_source_warnings(ops, facts, path, size);
    lemma_deletion_warnings(ops, entries, metas, path, size);
    lemma_overwrite_clouds(overwrites, path, size);
    let gone = deletions(ops, entries, metas);
    if gone.any {
        lemma_in_push(gone.warnings, kept.last(), w);
    } else {
        lemma_no_deletion(ops, entries, metas);
    }
    if overwrites.len() > 0 {
        lemma_in_push(overwrite_clouds(overwrites), lost.last(), w);
    }
}

proof fn lemma_in_push(list: Seq<PlanWarningView>, last: PlanWarningView, w: PlanWarningView)
    ensures
        list.push(last).contains(w) <==> list.contains(w) || last == w,
{
    let all = list.push(last);
    if list.contains(w) {
        let k = choose|k: int| 0 <= k < list.len() && list[k] == w;
        assert(all[k] == w);
    }
    if last == w {
        assert(all[list.len() as int] == w);
    }
    if all.contains(w) {
        let k = choose|k: int| 0 <= k < all.len() && all[k] == w;
        if k < list.len() {
            assert(list[k] == w);
        }
    }
}

proof fn lemma_in_two(a: Seq<PlanWarningView>, b: Seq<PlanWarningView>, w: PlanWarningView)
    ensures
        (a + b).contains(w) <==> a.contains(w) || b.contains(w),
{
    let all = a + b;
    if a.contains(w) {
        let k = choose|k: int| 0 <= k < a.len() && a[k] == w;
        assert(all[k] == w);
    }
    if b.contains(w) {
        let k = choose|k: int| 0 <= k < b.len() && b[k] == w;
        assert(all[a.len() + k] == w);
    }
    if all.contains(w) {
        let k = choose|k: int| 0 <= k < all.len() && all[k] == w;
        if k < a.len() {
            assert(a[k] == w);
        } else {
            assert(b[k - a.len()] == w);
        }
    }
}

proof fn lemma_in_three(
    a: Seq<PlanWarningView>,
    b: Seq<PlanWarningView>,
    c: Seq<PlanWarningView>,
    w: PlanWarningView,
)
    ensures
        (a + b + c).contains(w) <==> a.contains(w) || b.contains(w) || c.contains(w),
{
    lemma_in_two(a, b, w);
    lemma_in_two(a + b, c, w);
}

proof fn lemma_source_warnings(
    ops: Seq<FsOperationView>,
    facts: Seq<SourceFact>,
    path: Seq<Seq<char>>,
    size: Option<u64>,
)
    ensures
        source_warnings(ops, facts).contains(PlanWarningView::Hydration { path, size }) <==> exists|
            i: int,
        | #[trigger] fetched_to_read(ops, facts, path, size, i),
        forall|k: int|
            0 <= k < source_warnings(ops, facts).len() ==> #[trigger] source_warnings(
                ops,
                facts,
            )[k] is Hydration,
    decreases ops.len(),
{
    if ops.len() > 0 {
        let shorter = ops.drop_last();
        let n = ops.len() - 1;
        let w = PlanWarningView::Hydration { path, size };
        lemma_source_warnings(shorter, facts, path, size);
        let before = source_warnings(shorter, facts);
        let all = source_warnings(ops, facts);
        if all.len() > before.len() {
            lemma_in_push(before, all.last(), w);
        }
        assert forall|i: int| 0 <= i < n implies fetched_to_read(shorter, facts, path, size, i)
            == #[trigger] fetched_to_read(ops, facts, path, size, i) by {}
        if exists|i: int| #[trigger] fetched_to_read(shorter, facts, path, size, i) {
            let i = choose|i: int| #[trigger] fetched_to_read(shorter, facts, path, size, i);
            assert(fetched_to_read(ops, facts, path, size, i));
        }
        if exists|i: int| #[trigger] fetched_to_read(ops, facts, path, size, i) {
            let i = choose|i: int| #[trigger] fetched_to_read(ops, facts, path, size, i);
            if i < n {
                assert(fetched_to_read(shorter, facts, path, size, i));
            }
        }
        if all.contains(w) && !before.contains(w) {
            assert(fetched_to_read(ops, facts, path, size, n));
        }
        assert forall|k: int| 0 <= k < all.len() implies #[trigger] all[k] is Hydration by {
            if k < before.len() {
                assert(all[k] == before[k]);
            }
        }
    }
}

/// Entries stand in what is deleted just where they stand at its place or below it.
proof fn lemma_entries_within(entries: Seq<EntryView>, path: Seq<Seq<char>>, entry: EntryView)
    ensures
        entries_within(entries, path).contains(entry) <==> entries.contains(entry) && (entry.path
            == path || is_above(path, entry.path)),
    decreases entries.len(),
{
    if entries.len() > 0 {
        let shorter = entries.drop_last();
        lemma_entries_within(shorter, path, entry);
        let before = entries_within(shorter, path);
        let all = entries_within(entries, path);
        if before.contains(entry) {
            let k = choose|k: int| 0 <= k < before.len() && before[k] == entry;
            assert(all[k] == entry);
        }
        if shorter.contains(entry) {
            let k = choose|k: int| 0 <= k < shorter.len() && shorter[k] == entry;
            assert(entries[k] == entry);
        }
        if entries.contains(entry) && entries.last() != entry {
            let k = choose|k: int| 0 <= k < entries.len() && entries[k] == entry;
            assert(shorter[k] == entry);
        }
        if entries.last() == entry {
            assert(entries[entries.len() - 1] == entry);
            if entry.path == path || is_above(path, entry.path) {
                assert(all[all.len() - 1] == entry);
            }
        }
        if all.contains(entry) {
            let k = choose|k: int| 0 <= k < all.len() && all[k] == entry;
            if k < before.len() {
                assert(before[k] == entry);
            }
        }
    }
}

proof fn lemma_cloud_warnings(
    entries: Seq<EntryView>,
    metas: Map<u64, EntryMeta>,
    path: Seq<Seq<char>>,
    size: Option<u64>,
)
    ensures
        cloud_warnings(entries, metas).contains(PlanWarningView::Hydration { path, size })
            <==> exists|k: int| #[trigger] in_the_cloud(entries, metas, path, size, k),
        forall|k: int|
            0 <= k < cloud_warnings(entries, metas).len() ==> #[trigger] cloud_warnings(
                entries,
                metas,
            )[k] is Hydration,
    decreases entries.len(),
{
    if entries.len() > 0 {
        let shorter = entries.drop_last();
        let n = entries.len() - 1;
        let w = PlanWarningView::Hydration { path, size };
        lemma_cloud_warnings(shorter, metas, path, size);
        let before = cloud_warnings(shorter, metas);
        let all = cloud_warnings(entries, metas);
        if all.len() > before.len() {
            lemma_in_push(before, all.last(), w);
        }
        if exists|k: int| #[trigger] in_the_cloud(shorter, metas, path, size, k) {
            let k = choose|k: int| #[trigger] in_the_cloud(shorter, metas, path, size, k);
            assert(in_the_cloud(entries, metas, path, size, k));
        }
        if exists|k: int| #[trigger] in_the_cloud(entries, metas, path, size, k) {
            let k = choose|k: int| #[trigger] in_the_cloud(entries, metas, path, size, k);
            if k < n {
                assert(in_the_cloud(shorter, metas, path, size, k));
            }
        }
        if all.contains(w) && !before.contains(w) {
            assert(in_the_cloud(entries, metas, path, size, n));
        }
        assert forall|k: int| 0 <= k < all.len() implies #[trigger] all[k] is Hydration by {
            if k < before.len() {
                assert(all[k] == before[k]);
            }
        }
    }
}

spec fn in_the_cloud(
    entries: Seq<EntryView>,
    metas: Map<u64, EntryMeta>,
    path: Seq<Seq<char>>,
    size: Option<u64>,
    k: int,
) -> bool {
    &&& 0 <= k < entries.len()
    &&& entries[k].path == path
    &&& metas.contains_key(entries[k].id.0)
    &&& metas[entries[k].id.0].is_placeholder && metas[entries[k].id.0].size == size
}

proof fn lemma_deletion_warnings(
    ops: Seq<FsOperationView>,
    entries: Seq<EntryView>,
    metas: Map<u64, EntryMeta>,
    path: Seq<Seq<char>>,
    size: Option<u64>,
)
    ensures
        deletions(ops, entries, metas).warnings.contains(
            PlanWarningView::Hydration { path, size },
        ) <==> exists|i: int, k: int| #[trigger]
            fetched_to_keep(ops, entries, metas, path, size, i, k),
        forall|k: int|
            0 <= k < deletions(ops, entries, metas).warnings.len() ==> #[trigger] deletions(
                ops,
                entries,
                metas,
            ).warnings[k] is Hydration,
    decreases ops.len(),
{
    if ops.len() > 0 {
        let shorter = ops.drop_last();
        let n = ops.len() - 1;
        let w = PlanWarningView::Hydration { path, size };
        lemma_deletion_warnings(shorter, entries, metas, path, size);
        let before = deletions(shorter, entries, metas).warnings;
        let all = deletions(ops, entries, metas).warnings;
        if exists|i: int, k: int| #[trigger]
            fetched_to_keep(shorter, entries, metas, path, size, i, k) {
            let (i, k) = choose|i: int, k: int| #[trigger]
                fetched_to_keep(shorter, entries, metas, path, size, i, k);
            assert(fetched_to_keep(ops, entries, metas, path, size, i, k));
        }
        if let FsOperationView::Delete { path: top, .. } = ops[n] {
            let gone = entries_within(entries, top);
            let more = cloud_warnings(gone, metas);
            assert(all == before + more);
            lemma_in_two(before, more, w);
            lemma_cloud_warnings(gone, metas, path, size);
            if more.contains(w) {
                let g = choose|g: int| #[trigger] in_the_cloud(gone, metas, path, size, g);
                lemma_entries_within(entries, top, gone[g]);
                assert(gone.contains(gone[g]));
                let k = choose|k: int| 0 <= k < entries.len() && entries[k] == gone[g];
                assert(fetched_to_keep(ops, entries, metas, path, size, n, k));
            }
            if exists|k: int| #[trigger]
                fetched_to_keep(ops, entries, metas, path, size, n, k) {
                let k = choose|k: int| #[trigger]
                    fetched_to_keep(ops, entries, metas, path, size, n, k);
                lemma_entries_within(entries, top, entries[k]);
                assert(entries.contains(entries[k]));
                let g = choose|g: int| 0 <= g < gone.len() && gone[g] == entries[k];
                assert(in_the_cloud(gone, metas, path, size, g));
            }
            assert forall|k: int| 0 <= k < all.len() implies #[trigger] all[k] is Hydration by {
                if k < before.len() {
                    assert(all[k] == before[k]);
                } else {
                    assert(all[k] == more[k - before.len()]);
                }
            }
        } else {
            assert(all == before);
        }
        if exists|i: int, k: int| #[trigger]
            fetched_to_keep(ops, entries, metas, path, size, i, k) {
            let (i, k) = choose|i: int, k: int| #[trigger]
                fetched_to_keep(ops, entries, metas, path, size, i, k);
            if i < n {
                assert(fetched_to_keep(shorter, entries, metas, path, size, i, k));
            }
        }
    }
}

proof fn lemma_no_deletion(
    ops: Seq<FsOperationView>,
    entries: Seq<EntryView>,
    metas: Map<u64, EntryMeta>,
)
    ensures
        deletions(ops, entries, metas).any <==> exists|i: int|
            0 <= i < ops.len() && #[trigger] ops[i] is Delete,
    decreases ops.len(),
{
    if ops.len() > 0 {
        let shorter = ops.drop_last();
        lemma_no_deletion(shorter, entries, metas);
        if exists|i: int| 0 <= i < shorter.len() && #[trigger] shorter[i] is Delete {
            let i = choose|i: int| 0 <= i < shorter.len() && #[trigger] shorter[i] is Delete;
            assert(ops[i] is Delete);
        }
        if exists|i: int| 0 <= i < ops.len() && #[trigger] ops[i] is Delete {
            let i = choose|i: int| 0 <= i < ops.len() && #[trigger] ops[i] is Delete;
            if i < shorter.len() {
                assert(shorter[i] is Delete);
            }
        }
        if ops.last() is Delete {
            assert(ops[ops.len() - 1] is Delete);
        }
    }
}

proof fn lemma_overwrite_clouds(
    overwrites: Seq<OverwriteView>,
    path: Seq<Seq<char>>,
    size: Option<u64>,
)
    ensures
        overwrite_clouds(overwrites).contains(PlanWarningView::Hydration { path, size })
            <==> exists|j: int| #[trigger] fetched_to_overwrite(overwrites, path, size, j),
        forall|k: int|
            0 <= k < overwrite_clouds(overwrites).len() ==> #[trigger] overwrite_clouds(
                overwrites,
            )[k] is Hydration,
    decreases overwrites.len(),
{
    if overwrites.len() > 0 {
        let shorter = overwrites.drop_last();
        let n = overwrites.len() - 1;
        let w = PlanWarningView::Hydration { path, size };
        lemma_overwrite_clouds(shorter, path, size);
        let before = overwrite_clouds(shorter);
        let all = overwrite_clouds(overwrites);
        if all.len() > before.len() {
            lemma_in_push(before, all.last(), w);
        }
        if exists|j: int| #[trigger] fetched_to_overwrite(shorter, path, size, j) {
            let j = choose|j: int| #[trigger] fetched_to_overwrite(shorter, path, size, j);
            assert(fetched_to_overwrite(overwrites, path, size, j));
        }
        if exists|j: int| #[trigger] fetched_to_overwrite(overwrites, path, size, j) {
            let j = choose|j: int| #[trigger] fetched_to_overwrite(overwrites, path, size, j);
            if j < n {
                assert(fetched_to_overwrite(shorter, path, size, j));
            }
        }
        if all.contains(w) && !before.contains(w) {
            assert(fetched_to_overwrite(overwrites, path, size, n));
        }
        assert forall|k: int| 0 <= k < all.len() implies #[trigger] all[k] is Hydration by {
            if k < before.len() {
                assert(all[k] == before[k]);
            }
        }
    }
}

/// Whether something that is deleted has no known size, or is not known at all.
pub open spec fn size_is_open(
    op: FsOperationView,
    entries: Seq<EntryView>,
    metas: Map<u64, EntryMeta>,
) -> bool {
    &&& op is Delete
    &&& (forall|k: int| 0 <= k < entries.len() ==> !deletes(op, (#[trigger] entries[k]).path)) || (
    exists|k: int|
        0 <= k < entries.len() && deletes(op, (#[trigger] entries[k]).path) && (
        !metas.contains_key(entries[k].id.0) || (metas[entries[k].id.0].size is None
            && entries[k].kind != EntryKind::Dir)))
}

/// A user is told of one backup where a plan deletes and of one where it overwrites, and of
/// no backup else. The size that is told is the sum of what is known, as far as the number
/// goes, and it is said where something is not known.
pub proof fn backups_are_told(
    ops: Seq<FsOperationView>,
    entries: Seq<EntryView>,
    metas: Map<u64, EntryMeta>,
    facts: Seq<SourceFact>,
    overwrites: Seq<OverwriteView>,
    total: u64,
    unknown: bool,
)
    ensures
        expected_warnings(ops, entries, metas, facts, overwrites).contains(
            PlanWarningView::Backup { reason: BackupReason::Delete, total, unknown },
        ) <==> {
            let sum = deletions(ops, entries, metas).total;
            &&& exists|i: int| 0 <= i < ops.len() && #[trigger] ops[i] is Delete
            &&& total == (if sum <= u64::MAX {
                sum as int
            } else {
                u64::MAX as int
            })
            &&& unknown <==> exists|i: int|
                0 <= i < ops.len() && size_is_open(#[trigger] ops[i], entries, metas)
        },
        expected_warnings(ops, entries, metas, facts, overwrites).contains(
            PlanWarningView::Backup { reason: BackupReason::Overwrite, total, unknown },
        ) <==> {
            let sum = overwrite_total(overwrites);
            &&& overwrites.len() > 0
            &&& total == (if sum <= u64::MAX {
                sum as int
            } else {
                u64::MAX as int
            })
            &&& unknown <==> exists|j: int|
                0 <= j < overwrites.len() && (#[trigger] overwrites[j]).size
                    == OverwriteSize::Unreadable
        },
{
    let path: Seq<Seq<char>> = Seq::empty();
    let read = source_warnings(ops, facts);
    let kept = delete_warnings(ops, entries, metas);
    let lost = overwrite_warnings(overwrites);
    let deleted = PlanWarningView::Backup { reason: BackupReason::Delete, total, unknown };
    let overwritten = PlanWarningView::Backup { reason: BackupReason::Overwrite, total, unknown };
    lemma_in_three(read, kept, lost, deleted);
    lemma_in_three(read, kept, lost, overwritten);
    lemma_source_warnings(ops, facts, path, None);
    lemma_deletion_warnings(ops, entries, metas, path, None);
    lemma_overwrite_clouds(overwrites, path, None);
    lemma_no_deletion(ops, entries, metas);
    lemma_deletions_unknown(ops, entries, metas);
    let gone = deletions(ops, entries, metas);
    if gone.any {
        lemma_in_push(gone.warnings, kept.last(), deleted);
        lemma_in_push(gone.warnings, kept.last(), overwritten);
    }
    if overwrites.len() > 0 {
        lemma_in_push(overwrite_clouds(overwrites), lost.last(), deleted);
        lemma_in_push(overwrite_clouds(overwrites), lost.last(), overwritten);
    }
}

proof fn lemma_deletions_unknown(
    ops: Seq<FsOperationView>,
    entries: Seq<EntryView>,
    metas: Map<u64, EntryMeta>,
)
    ensures
        deletions(ops, entries, metas).unknown <==> exists|i: int|
            0 <= i < ops.len() && size_is_open(#[trigger] ops[i], entries, metas),
    decreases ops.len(),
{
    if ops.len() > 0 {
        let shorter = ops.drop_last();
        let n = ops.len() - 1;
        lemma_deletions_unknown(shorter, entries, metas);
        if let FsOperationView::Delete { path, .. } = ops[n] {
            lemma_size_is_open(ops[n], entries, metas, path);
        }
        if exists|i: int| 0 <= i < shorter.len() && size_is_open(
            #[trigger] shorter[i],
            entries,
            metas,
        ) {
            let i = choose|i: int|
                0 <= i < shorter.len() && size_is_open(#[trigger] shorter[i], entries, metas);
            assert(size_is_open(ops[i], entries, metas));
        }
        if exists|i: int| 0 <= i < ops.len() && size_is_open(#[trigger] ops[i], entries, metas) {
            let i = choose|i: int|
                0 <= i < ops.len() && size_is_open(#[trigger] ops[i], entries, metas);
            if i < n {
                assert(size_is_open(shorter[i], entries, metas));
            }
        }
        if size_is_open(ops[n], entries, metas) {
            assert(size_is_open(ops[n], entries, metas));
        }
    }
}

proof fn lemma_size_is_open(
    op: FsOperationView,
    entries: Seq<EntryView>,
    metas: Map<u64, EntryMeta>,
    path: Seq<Seq<char>>,
)
    requires
        op matches FsOperationView::Delete { path: gone, .. } && gone == path,
    ensures
        size_is_open(op, entries, metas) <==> entries_within(entries, path).len() == 0
            || some_lack_size(entries_within(entries, path), metas),
{
    let gone = entries_within(entries, path);
    if gone.len() > 0 {
        lemma_entries_within(entries, path, gone[0]);
        assert(gone.contains(gone[0]));
        let k = choose|k: int| 0 <= k < entries.len() && entries[k] == gone[0];
        assert(deletes(op, entries[k].path));
    } else {
        assert forall|k: int| 0 <= k < entries.len() implies !deletes(
            op,
            (#[trigger] entries[k]).path,
        ) by {
            lemma_entries_within(entries, path, entries[k]);
            assert(entries.contains(entries[k]));
        }
    }
    if some_lack_size(gone, metas) {
        let g = choose|g: int|
            0 <= g < gone.len() && lacks_size(#[trigger] gone[g], metas);
        lemma_entries_within(entries, path, gone[g]);
        assert(gone.contains(gone[g]));
        let k = choose|k: int| 0 <= k < entries.len() && entries[k] == gone[g];
        assert(deletes(op, entries[k].path));
    }
    if exists|k: int|
        0 <= k < entries.len() && deletes(op, (#[trigger] entries[k]).path) && (
        !metas.contains_key(entries[k].id.0) || (metas[entries[k].id.0].size is None
            && entries[k].kind != EntryKind::Dir)) {
        let k = choose|k: int|
            0 <= k < entries.len() && deletes(op, (#[trigger] entries[k]).path) && (
            !metas.contains_key(entries[k].id.0) || (metas[entries[k].id.0].size is None
                && entries[k].kind != EntryKind::Dir));
        lemma_entries_within(entries, path, entries[k]);
        assert(entries.contains(entries[k]));
        let g = choose|g: int| 0 <= g < gone.len() && gone[g] == entries[k];
        assert(lacks_size(gone[g], metas));
    }
}

/// What is deleted adds up over the operations, and for one of them over the entries at and
/// below its place, each with the size that is known of it; what is overwritten adds up
/// likewise.
pub proof fn sizes_add_up(
    ops: Seq<FsOperationView>,
    more: Seq<FsOperationView>,
    op: FsOperationView,
    entries: Seq<EntryView>,
    others: Seq<EntryView>,
    entry: EntryView,
    metas: Map<u64, EntryMeta>,
    path: Seq<Seq<char>>,
    overwrites: Seq<OverwriteView>,
    overwrite: OverwriteView,
)
    ensures
        deletions(ops + more, entries, metas).total == deletions(ops, entries, metas).total
            + deletions(more, entries, metas).total,
        deletions(seq![op], entries, metas).total == (match op {
            FsOperationView::Delete { path, .. } => total_size(
                entries_within(entries, path),
                metas,
            ),
            _ => 0,
        }),
        entries_within(entries + others, path) == entries_within(entries, path) + entries_within(
            others,
            path,
        ),
        entries_within(seq![entry], path) == (if entry.path == path || is_above(path, entry.path) {
            seq![entry]
        } else {
            Seq::empty()
        }),
        total_size(entries + others, metas) == total_size(entries, metas) + total_size(
            others,
            metas,
        ),
        total_size(seq![entry], metas) == (if metas.contains_key(entry.id.0) && metas[
            entry.id.0
        ].size is Some {
            metas[entry.id.0].size->Some_0 as int
        } else {
            0
        }),
        overwrite_total(overwrites.push(overwrite)) == overwrite_total(overwrites) + (match overwrite.size {
            OverwriteSize::Known(n) => n as int,
            _ => 0,
        }),
        overwrite_total(Seq::empty()) == 0,
{
    lemma_deletions_total(ops, more, entries, metas);
    lemma_within_concat(entries, others, path);
    lemma_total_concat(entries, others, metas);
    assert(seq![op].drop_last() =~= Seq::empty());
    assert(deletions(seq![op].drop_last(), entries, metas).total == 0);
    assert(seq![entry].drop_last() =~= Seq::empty());
    assert(entries_within(seq![entry].drop_last(), path) =~= Seq::empty());
    assert(Seq::<EntryView>::empty().push(entry) =~= seq![entry]);
    assert(total_size(seq![entry].drop_last(), metas) == 0);
    assert(overwrites.push(overwrite).drop_last() =~= overwrites);
}

proof fn lemma_deletions_total(
    ops: Seq<FsOperationView>,
    more: Seq<FsOperationView>,
    entries: Seq<EntryView>,
    metas: Map<u64, EntryMeta>,
)
    ensures
        deletions(ops + more, entries, metas).total == deletions(ops, entries, metas).total
            + deletions(more, entries, metas).total,
    decreases more.len(),
{
    if more.len() == 0 {
        assert(ops + more =~= ops);
    } else {
        lemma_deletions_total(ops, more.drop_last(), entries, metas);
        assert((ops + more).drop_last() =~= ops + more.drop_last());
        assert((ops + more).last() == more.last());
    }
}

proof fn lemma_within_concat(
    entries: Seq<EntryView>,
    others: Seq<EntryView>,
    path: Seq<Seq<char>>,
)
    ensures
        entries_within(entries + others, path) == entries_within(entries, path) + entries_within(
            others,
            path,
        ),
    decreases others.len(),
{
    if others.len() == 0 {
        assert(entries + others =~= entries);
        assert(entries_within(entries, path) + Seq::<EntryView>::empty() =~= entries_within(
            entries,
            path,
        ));
    } else {
        lemma_within_concat(entries, others.drop_last(), path);
        assert((entries + others).drop_last() =~= entries + others.drop_last());
        assert((entries + others).last() == others.last());
        assert(entries_within(entries + others, path) =~= entries_within(entries, path)
            + entries_within(others, path));
    }
}

proof fn lemma_total_concat(
    entries: Seq<EntryView>,
    others: Seq<EntryView>,
    metas: Map<u64, EntryMeta>,
)
    ensures
        total_size(entries + others, metas) == total_size(entries, metas) + total_size(
            others,
            metas,
        ),
    decreases others.len(),
{
    if others.len() == 0 {
        assert(entries + others =~= entries);
    } else {
        lemma_total_concat(entries, others.drop_last(), metas);
        assert((entries + others).drop_last() =~= entries + others.drop_last());
        assert((entries + others).last() == others.last());
    }
}

/// What can be undone after a save: the transaction of a save that did something, if it has
/// steps; nothing where such a save has none; and what could be undone before where the
/// save did nothing. Every transaction that cannot be undone any more is forgotten, and no
/// other; a user is warned just where a save that did something cannot be undone.
pub proof fn save_replaces_what_can_be_undone(
    slot: Option<UndoTransactionView>,
    any_success: bool,
    transaction: Option<UndoTransactionView>,
    name: Seq<char>,
)
    ensures
        ({
            let (after, record) = recorded(slot, any_success, transaction);
            let usable = transaction matches Some(new) && new.steps.len() > 0;
            &&& any_success && usable ==> after == transaction && record.commit
            &&& any_success && !usable ==> after is None && !record.commit
            &&& !any_success ==> after == slot && !record.commit
            &&& record.warning is Some <==> any_success && !usable
            &&& record.discard.contains(name) <==> {
                ||| any_success && (slot matches Some(old) && old.id == name)
                ||| !(any_success && usable) && (transaction matches Some(new) && new.id == name)
            }
        }),
{
    let (after, record) = recorded(slot, any_success, transaction);
    if slot is Some {
        let id = slot->Some_0.id;
        assert(seq![id][0] == id);
    }
    if transaction is Some {
        let id = transaction->Some_0.id;
        assert(seq![id][0] == id);
        if any_success && transaction->Some_0.steps.len() == 0 {
            assert(record.discard[record.discard.len() - 1] == id);
            if slot is Some {
                assert(record.discard[0] == slot->Some_0.id);
            }
        }
    }
}

/// Where all is forgotten that can be undone, every transaction is, and no other, in order.
pub proof fn every_slot_is_forgotten(
    slots: Seq<Option<UndoTransaction>>,
    more: Seq<Option<UndoTransaction>>,
    slot: Option<UndoTransaction>,
)
    ensures
        slot_names(slots + more) == slot_names(slots) + slot_names(more),
        slot_names(seq![slot]) == (match slot {
            Some(transaction) => seq![transaction.id@],
            None => Seq::empty(),
        }),
    decreases more.len(),
{
    assert(seq![slot].drop_last() =~= Seq::empty());
    assert(slot_names(seq![slot].drop_last()) =~= Seq::empty());
    assert(slot_names(seq![slot]) =~= (match slot {
        Some(transaction) => seq![transaction.id@],
        None => Seq::<Seq<char>>::empty(),
    }));
    if more.len() == 0 {
        assert(slots + more =~= slots);
        assert(slot_names(slots) + slot_names(more) =~= slot_names(slots));
    } else {
        every_slot_is_forgotten(slots, more.drop_last(), slot);
        assert((slots + more).drop_last() =~= slots + more.drop_last());
        assert((slots + more).last() == more.last());
        assert(slot_names(slots + more) =~= slot_names(slots) + slot_names(more));
    }
}

/// The lines of an undo name every step, in order, each followed by why it is left out
/// where it is.
pub proof fn undo_lines_name_every_step(
    steps: Seq<UndoStep>,
    statuses: Seq<UndoStepStatus>,
    step: UndoStep,
    status: UndoStepStatus,
)
    requires
        steps.len() == statuses.len(),
    ensures
        plan_lines(steps.push(step), statuses.push(status)) == plan_lines(steps, statuses).push(
            step_line(step@),
        ) + (match status {
            UndoStepStatus::Rejected { reason } => seq!["  [対象外] "@ + reason@],
            UndoStepStatus::Ready => Seq::empty(),
        }),
        plan_lines(Seq::empty(), Seq::empty()) == Seq::<Seq<char>>::empty(),
    decreases steps.len(),
{
    let all = steps.push(step);
    let said = statuses.push(status);
    if steps.len() == 0 {
        assert(all.drop_first() =~= Seq::empty());
        assert(plan_lines(all.drop_first(), said.drop_first()) =~= Seq::empty());
        assert(plan_lines(all, said) =~= plan_lines(steps, statuses).push(step_line(step@)) + (
        match status {
            UndoStepStatus::Rejected { reason } => seq!["  [対象外] "@ + reason@],
            UndoStepStatus::Ready => Seq::<Seq<char>>::empty(),
        }));
    } else {
        undo_lines_name_every_step(steps.drop_first(), statuses.drop_first(), step, status);
        assert(all.drop_first() =~= steps.drop_first().push(step));
        assert(said.drop_first() =~= statuses.drop_first().push(status));
        assert(plan_lines(all, said) =~= plan_lines(steps, statuses).push(step_line(step@)) + (
        match status {
            UndoStepStatus::Rejected { reason } => seq!["  [対象外] "@ + reason@],
            UndoStepStatus::Ready => Seq::<Seq<char>>::empty(),
        }));
    }
}

/// A step of an undo is told with the place that it is about; one that moves back with the
/// place that it moves from now first and the place that it goes back to last.
pub proof fn undo_line_names_its_places(step: UndoStepView)
    ensures
        ({
            let line = step_line(step);
            match step {
                UndoStepView::MoveBack { from, to, .. } => exists|front: Seq<char>, middle: Seq<
                    char,
                >| line == #[trigger] (front + to.text + middle + from.text),
                UndoStepView::RemoveCreated { path, .. } => exists|front: Seq<char>|
                    line == #[trigger] (front + path.text),
                UndoStepView::RemoveCopied { path, .. } => exists|front: Seq<char>|
                    line == #[trigger] (front + path.text),
                UndoStepView::RestoreDeleted { path, .. } => exists|front: Seq<char>|
                    line == #[trigger] (front + path.text),
                UndoStepView::RestoreOverwritten { path, .. } => exists|front: Seq<char>|
                    line == #[trigger] (front + path.text),
            }
        }),
{
    match step {
        UndoStepView::MoveBack { from, to, .. } => {
            assert(step_line(step) == "UNDO MOVE "@ + to.text + " → "@ + from.text);
        },
        UndoStepView::RemoveCreated { path, .. } => {
            assert(step_line(step) == "UNDO CREATE "@ + path.text);
        },
        UndoStepView::RemoveCopied { path, .. } => {
            assert(step_line(step) == "UNDO COPY "@ + path.text);
        },
        UndoStepView::RestoreDeleted { path, .. } => {
            assert(step_line(step) == "UNDO DELETE "@ + path.text);
        },
        UndoStepView::RestoreOverwritten { path, .. } => {
            assert(step_line(step) == "UNDO OVERWRITE "@ + path.text);
        },
    }
}

/// The lines of a report name every step with what came of it, in order.
pub proof fn report_lines_name_every_step(results: Seq<OpResult<UndoStep>>, i: int)
    requires
        0 <= i < results.len(),
    ensures
        report_lines(results).len() == results.len(),
        report_lines(results)[i] == outcome_line(step_line(results[i].op@), results[i].outcome),
{
}

/// A line of a report tells success, failure and omission apart, by how it begins.
pub proof fn outcomes_are_told_apart(operation: Seq<char>, outcome: OpOutcome)
    ensures
        outcome_line(operation, outcome).len() > 4 + operation.len() || outcome is Success,
        outcome is Success <==> outcome_line(operation, outcome)[0] == 'O',
        outcome is Failed <==> outcome_line(operation, outcome)[0] == 'N',
        outcome is Skipped <==> outcome_line(operation, outcome)[0] == '-',
{
    reveal_strlit("OK  ");
    reveal_strlit("NG  ");
    reveal_strlit("--  SKIP ");
    reveal_strlit(" (reason: ");
    reveal_strlit(")");
    reveal_strlit(" / progress: ");
}

/// Some operation failed, or succeeded, just where one of the results says so.
pub proof fn reports_are_read_whole<T>(results: Seq<OpResult<T>>, more: Seq<OpResult<T>>)
    ensures
        some_failed(results + more) <==> some_failed(results) || some_failed(more),
        some_succeeded(results + more) <==> some_succeeded(results) || some_succeeded(more),
        results.len() == 1 ==> (some_failed(results) <==> results[0].outcome is Failed),
        results.len() == 1 ==> (some_succeeded(results) <==> results[0].outcome is Success),
{
    let all = results + more;
    if some_failed(results) {
        let i = choose|i: int| 0 <= i < results.len() && (#[trigger] results[i]).outcome is Failed;
        assert(all[i].outcome is Failed);
    }
    if some_failed(more) {
        let i = choose|i: int| 0 <= i < more.len() && (#[trigger] more[i]).outcome is Failed;
        assert(all[results.len() + i].outcome is Failed);
    }
    if some_failed(all) {
        let i = choose|i: int| 0 <= i < all.len() && (#[trigger] all[i]).outcome is Failed;
        if i < results.len() {
            assert(results[i].outcome is Failed);
        } else {
            assert(more[i - results.len()].outcome is Failed);
        }
    }
    if some_succeeded(results) {
        let i = choose|i: int| 0 <= i < results.len() && (#[trigger] results[i]).outcome is Success;
        assert(all[i].outcome is Success);
    }
    if some_succeeded(more) {
        let i = choose|i: int| 0 <= i < more.len() && (#[trigger] more[i]).outcome is Success;
        assert(all[results.len() + i].outcome is Success);
    }
    if some_succeeded(all) {
        let i = choose|i: int| 0 <= i < all.len() && (#[trigger] all[i]).outcome is Success;
        if i < results.len() {
            assert(results[i].outcome is Success);
        } else {
            assert(more[i - results.len()].outcome is Success);
        }
    }
    if results.len() == 1 {
        assert(results[0].outcome is Failed ==> some_failed(results));
        assert(results[0].outcome is Success ==> some_succeeded(results));
    }
}

} // verus!
