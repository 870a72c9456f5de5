//! What a user should know before a save: contents that have to be fetched from
//! the cloud, and how much is kept for an undo.

use vstd::prelude::*;

use crate::baseline::{entries_view, meta_of, BaselineTree, EntryMeta, EntryView};
use crate::folding::is_within;
use crate::plan::{FsOperation, FsOperationView, OperationPlan};
use crate::tree::{join_path, paths_view, EntryKind, TreePath};

verus! {

/// Why something is kept.
#[derive(Debug, Clone, Copy, PartialEq, Eq, Structural)]
pub enum BackupReason {
    Delete,
    Overwrite,
}

/// What a user should know before a save.
#[derive(Debug, PartialEq, Eq)]
pub enum PlanWarning {
    /// The contents of an entry have to be fetched.
    Hydration { path: TreePath, size: Option<u64> },
    /// About `total` bytes are kept; `unknown` where some sizes are not known.
    Backup { reason: BackupReason, total: u64, unknown: bool },
}

/// What a user should know before a save.
#[verifier::ext_equal]
pub enum PlanWarningView {
    Hydration { path: Seq<Seq<char>>, size: Option<u64> },
    Backup { reason: BackupReason, total: u64, unknown: bool },
}

impl PlanWarning {
    pub open spec fn view(&self) -> PlanWarningView {
        match self {
            PlanWarning::Hydration { path, size } => PlanWarningView::Hydration {
                path: path@,
                size: *size,
            },
            PlanWarning::Backup { reason, total, unknown } => PlanWarningView::Backup {
                reason: *reason,
                total: *total,
                unknown: *unknown,
            },
        }
    }

    /// Whether two warnings are the same.
    pub fn same(&self, other: &PlanWarning) -> (r: bool)
        ensures
            r == (self@ == other@),
    {
        match (self, other) {
            (
                PlanWarning::Hydration { path, size },
                PlanWarning::Hydration { path: other_path, size: other_size },
            ) => path.same(other_path) && (match (size, other_size) {
                (Some(mine), Some(theirs)) => *mine == *theirs,
                (None, None) => true,
                _ => false,
            }),
            (
                PlanWarning::Backup { reason, total, unknown },
                PlanWarning::Backup {
                    reason: other_reason,
                    total: other_total,
                    unknown: other_unknown,
                },
            ) => *reason == *other_reason && *total == *other_total && *unknown == *other_unknown,
            _ => false,
        }
    }

    /// The size that the words of this warning speak of, if they do.
    pub fn size(&self) -> (r: Option<u64>)
        ensures
            r == (match self@ {
                PlanWarningView::Hydration { size, .. } => size,
                PlanWarningView::Backup { total, .. } => Some(total),
            }),
    {
        match self {
            PlanWarning::Hydration { size, .. } => *size,
            PlanWarning::Backup { total, .. } => Some(*total),
        }
    }

    /// This warning in words, with its size in the words `size_text`.
    pub fn text(&self, size_text: &str) -> (r: String)
        ensures
            r@ == warning_text(self@, size_text@),
    {
        match self {
            PlanWarning::Hydration { path, size } => {
                let mut text = "クラウドから取得します: ".to_owned();
                text.append(path.display().as_str());
                if size.is_some() {
                    text.append("(");
                    text.append(size_text);
                    text.append(")");
                }
                assert(text@ =~= warning_text(self@, size_text@));
                text
            },
            PlanWarning::Backup { reason, unknown, .. } => {
                let prefix = match reason {
                    BackupReason::Delete => "削除前にbackupを作成します",
                    BackupReason::Overwrite => "上書き前にbackupを作成します",
                };
                let mut text = prefix.to_owned();
                text.append(": 約");
                text.append(size_text);
                if *unknown {
                    text.append(" (一部サイズ不明)");
                }
                assert(text@ =~= warning_text(self@, size_text@));
                text
            },
        }
    }
}

/// A warning in words, with its size in the words `size_text`.
pub open spec fn warning_text(warning: PlanWarningView, size_text: Seq<char>) -> Seq<char> {
    match warning {
        PlanWarningView::Hydration { path, size } => "クラウドから取得します: "@ + join_path(
            path,
        ) + (if size is Some {
            "("@ + size_text + ")"@
        } else {
            Seq::empty()
        }),
        PlanWarningView::Backup { reason, unknown, .. } => (match reason {
            BackupReason::Delete => "削除前にbackupを作成します"@,
            BackupReason::Overwrite => "上書き前にbackupを作成します"@,
        }) + ": 約"@ + size_text + (if unknown {
            " (一部サイズ不明)"@
        } else {
            Seq::empty()
        }),
    }
}

/// What warnings are.
pub open spec fn warnings_view(warnings: Seq<PlanWarning>) -> Seq<PlanWarningView> {
    warnings.map_values(|warning: PlanWarning| warning@)
}

/// Whether two lists of warnings are the same.
pub fn same_warnings(a: &Vec<PlanWarning>, b: &Vec<PlanWarning>) -> (r: bool)
    ensures
        r == (warnings_view(a@) == warnings_view(b@)),
{
    let ghost mine = warnings_view(a@);
    let ghost theirs = warnings_view(b@);
    if a.len() != b.len() {
        assert(mine.len() != theirs.len());
        return false;
    }
    let mut i: usize = 0;
    while i < a.len()
        invariant
            i <= a@.len() == b@.len(),
            mine == warnings_view(a@),
            theirs == warnings_view(b@),
            forall|j: int| 0 <= j < i ==> #[trigger] mine[j] == theirs[j],
        decreases a@.len() - i,
    {
        if !a[i].same(&b[i]) {
            assert(mine[i as int] != theirs[i as int]);
            return false;
        }
        assert(mine[i as int] == theirs[i as int]);
        i = i + 1;
    }
    assert(mine =~= theirs);
    true
}

/// What the file system says of the source of an operation.
#[derive(Debug, Clone, Copy, PartialEq, Eq, Structural)]
pub struct SourceFact {
    /// Whether its contents are in the cloud.
    pub placeholder: bool,
    /// Its size, where it is known.
    pub size: Option<u64>,
}

/// What the file system says of the size of an entry that is overwritten.
#[derive(Debug, Clone, Copy, PartialEq, Eq, Structural)]
pub enum OverwriteSize {
    Directory,
    Known(u64),
    Unreadable,
}

/// An entry that is overwritten, and what the file system says of it.
#[derive(Debug, PartialEq, Eq)]
pub struct Overwrite {
    pub path: TreePath,
    pub size: OverwriteSize,
    /// Whether its contents are in the cloud.
    pub placeholder: bool,
}

/// An entry that is overwritten.
#[verifier::ext_equal]
pub struct OverwriteView {
    pub path: Seq<Seq<char>>,
    pub size: OverwriteSize,
    pub placeholder: bool,
}

impl Overwrite {
    pub open spec fn view(&self) -> OverwriteView {
        OverwriteView { path: self.path@, size: self.size, placeholder: self.placeholder }
    }
}

/// What entries that are overwritten are.
pub open spec fn overwrites_view(overwrites: Seq<Overwrite>) -> Seq<OverwriteView> {
    overwrites.map_values(|overwrite: Overwrite| overwrite@)
}

/// The places of entries that are overwritten.
pub open spec fn overwritten_paths(overwrites: Seq<OverwriteView>) -> Seq<Seq<Seq<char>>> {
    overwrites.map_values(|overwrite: OverwriteView| overwrite.path)
}

/// The places of entries that are overwritten.
pub fn paths_of(overwrites: &Vec<Overwrite>) -> (r: Vec<TreePath>)
    ensures
        paths_view(r@) == overwritten_paths(overwrites_view(overwrites@)),
{
    let ghost all = overwritten_paths(overwrites_view(overwrites@));
    let mut paths: Vec<TreePath> = Vec::new();
    let mut i: usize = 0;
    while i < overwrites.len()
        invariant
            i <= overwrites@.len(),
            all == overwritten_paths(overwrites_view(overwrites@)),
            paths@.len() == i,
            forall|j: int| 0 <= j < i ==> (#[trigger] paths@[j])@ == all[j],
        decreases overwrites@.len() - i,
    {
        paths.push(overwrites[i].path.copy());
        i = i + 1;
    }
    assert(paths_view(paths@) =~= all);
    paths
}

/// A sum, or the greatest number where the sum exceeds it.
pub open spec fn capped(sum: nat) -> u64 {
    if sum <= u64::MAX {
        sum as u64
    } else {
        u64::MAX
    }
}

/// What is known of the source of operation `i`.
pub open spec fn fact_at(facts: Seq<SourceFact>, i: int) -> SourceFact {
    if 0 <= i < facts.len() {
        facts[i]
    } else {
        SourceFact { placeholder: false, size: None }
    }
}

/// The entry that an operation moves or copies.
pub open spec fn source_of(op: FsOperationView) -> Option<Seq<Seq<char>>> {
    match op {
        FsOperationView::Move { from, .. } => Some(from),
        FsOperationView::Copy { from, .. } => Some(from),
        _ => None,
    }
}

/// A warning for each operation that reads contents that are in the cloud.
pub open spec fn source_warnings(ops: Seq<FsOperationView>, facts: Seq<SourceFact>) -> Seq<
    PlanWarningView,
>
    decreases ops.len(),
{
    if ops.len() == 0 {
        Seq::empty()
    } else {
        let before = source_warnings(ops.drop_last(), facts);
        let fact = fact_at(facts, ops.len() - 1);
        match source_of(ops.last()) {
            Some(path) => if fact.placeholder {
                before.push(PlanWarningView::Hydration { path, size: fact.size })
            } else {
                before
            },
            None => before,
        }
    }
}

/// The entries at a place or below it, in order.
pub open spec fn entries_within(entries: Seq<EntryView>, path: Seq<Seq<char>>) -> Seq<EntryView>
    decreases entries.len(),
{
    if entries.len() == 0 {
        Seq::empty()
    } else {
        let before = entries_within(entries.drop_last(), path);
        if is_within(entries.last().path, Some(path)) {
            before.push(entries.last())
        } else {
            before
        }
    }
}

/// The sizes of entries together.
pub open spec fn total_size(entries: Seq<EntryView>, metas: Map<u64, EntryMeta>) -> nat
    decreases entries.len(),
{
    if entries.len() == 0 {
        0
    } else {
        let before = total_size(entries.drop_last(), metas);
        match meta_of(metas, entries.last().id) {
            Some(meta) => match meta.size {
                Some(size) => before + size as nat,
                None => before,
            },
            None => before,
        }
    }
}

/// Whether the size of an entry is not known though it should be.
pub open spec fn lacks_size(entry: EntryView, metas: Map<u64, EntryMeta>) -> bool {
    match meta_of(metas, entry.id) {
        None => true,
        Some(meta) => meta.size is None && entry.kind != EntryKind::Dir,
    }
}

/// Whether some size is not known though it should be.
pub open spec fn some_lack_size(entries: Seq<EntryView>, metas: Map<u64, EntryMeta>) -> bool {
    exists|i: int| 0 <= i < entries.len() && lacks_size(#[trigger] entries[i], metas)
}

/// A warning for each entry whose contents are in the cloud.
pub open spec fn cloud_warnings(entries: Seq<EntryView>, metas: Map<u64, EntryMeta>) -> Seq<
    PlanWarningView,
>
    decreases entries.len(),
{
    if entries.len() == 0 {
        Seq::empty()
    } else {
        let before = cloud_warnings(entries.drop_last(), metas);
        match meta_of(metas, entries.last().id) {
            Some(meta) => if meta.is_placeholder {
                before.push(
                    PlanWarningView::Hydration { path: entries.last().path, size: meta.size },
                )
            } else {
                before
            },
            None => before,
        }
    }
}

/// What deleting comes to: whether anything is deleted, how much, whether some
/// sizes are not known, and what has to be fetched.
#[verifier::ext_equal]
pub struct Deletions {
    pub any: bool,
    pub total: nat,
    pub unknown: bool,
    pub warnings: Seq<PlanWarningView>,
}

/// What the deletions among operations come to.
pub open spec fn deletions(
    ops: Seq<FsOperationView>,
    entries: Seq<EntryView>,
    metas: Map<u64, EntryMeta>,
) -> Deletions
    decreases ops.len(),
{
    if ops.len() == 0 {
        Deletions { any: false, total: 0, unknown: false, warnings: Seq::empty() }
    } else {
        let before = deletions(ops.drop_last(), entries, metas);
        match ops.last() {
            FsOperationView::Delete { path, .. } => {
                let gone = entries_within(entries, path);
                Deletions {
                    any: true,
                    total: before.total + total_size(gone, metas),
                    unknown: before.unknown || gone.len() == 0 || some_lack_size(gone, metas),
                    warnings: before.warnings + cloud_warnings(gone, metas),
                }
            },
            _ => before,
        }
    }
}

/// What there is to say of the deletions among operations.
pub open spec fn delete_warnings(
    ops: Seq<FsOperationView>,
    entries: Seq<EntryView>,
    metas: Map<u64, EntryMeta>,
) -> Seq<PlanWarningView> {
    let gone = deletions(ops, entries, metas);
    if gone.any {
        gone.warnings.push(
            PlanWarningView::Backup {
                reason: BackupReason::Delete,
                total: capped(gone.total),
                unknown: gone.unknown,
            },
        )
    } else {
        Seq::empty()
    }
}

/// The size of an entry that is overwritten, where it has one.
pub open spec fn overwrite_size(size: OverwriteSize) -> Option<u64> {
    match size {
        OverwriteSize::Known(size) => Some(size),
        _ => None,
    }
}

/// The sizes of entries that are overwritten together.
pub open spec fn overwrite_total(overwrites: Seq<OverwriteView>) -> nat
    decreases overwrites.len(),
{
    if overwrites.len() == 0 {
        0
    } else {
        let before = overwrite_total(overwrites.drop_last());
        match overwrite_size(overwrites.last().size) {
            Some(size) => before + size as nat,
            None => before,
        }
    }
}

/// A warning for each entry that is overwritten and whose contents are in the
/// cloud.
pub open spec fn overwrite_clouds(overwrites: Seq<OverwriteView>) -> Seq<PlanWarningView>
    decreases overwrites.len(),
{
    if overwrites.len() == 0 {
        Seq::empty()
    } else {
        let before = overwrite_clouds(overwrites.drop_last());
        if overwrites.last().placeholder {
            before.push(
                PlanWarningView::Hydration {
                    path: overwrites.last().path,
                    size: overwrite_size(overwrites.last().size),
                },
            )
        } else {
            before
        }
    }
}

/// What there is to say of the entries that are overwritten.
pub open spec fn overwrite_warnings(overwrites: Seq<OverwriteView>) -> Seq<PlanWarningView> {
    if overwrites.len() == 0 {
        Seq::empty()
    } else {
        overwrite_clouds(overwrites).push(
            PlanWarningView::Backup {
                reason: BackupReason::Overwrite,
                total: capped(overwrite_total(overwrites)),
                unknown: exists|i: int|
                    0 <= i < overwrites.len() && (#[trigger] overwrites[i]).size is Unreadable,
            },
        )
    }
}

/// What a user should know before a plan is done.
pub open spec fn expected_warnings(
    ops: Seq<FsOperationView>,
    entries: Seq<EntryView>,
    metas: Map<u64, EntryMeta>,
    sources: Seq<SourceFact>,
    overwrites: Seq<OverwriteView>,
) -> Seq<PlanWarningView> {
    source_warnings(ops, sources) + delete_warnings(ops, entries, metas) + overwrite_warnings(
        overwrites,
    )
}

/// Adds a warning for each operation that reads contents that are in the cloud.
fn append_source_warnings(
    warnings: &mut Vec<PlanWarning>,
    plan: &OperationPlan,
    facts: &Vec<SourceFact>,
)
    ensures
        warnings_view(final(warnings)@) == warnings_view(old(warnings)@) + source_warnings(
            plan@,
            facts@,
        ),
{
    let ghost start = warnings_view(old(warnings)@);
    let ghost all = plan@;
    let mut i: usize = 0;
    assert(all.take(0) =~= Seq::empty());
    assert(warnings_view(warnings@) =~= start + source_warnings(all.take(0), facts@));
    while i < plan.ops.len()
        invariant
            i <= plan.ops@.len(),
            all == plan@,
            warnings_view(warnings@) == start + source_warnings(all.take(i as int), facts@),
        decreases plan.ops@.len() - i,
    {
        let ghost before = warnings_view(warnings@);
        proof {
            assert(all.take(i + 1).drop_last() =~= all.take(i as int));
            assert(all.take(i + 1).last() == plan.ops@[i as int]@);
        }
        let from = match &plan.ops[i] {
            FsOperation::Move { from, .. } => Some(from),
            FsOperation::Copy { from, .. } => Some(from),
            _ => None,
        };
        if let Some(from) = from {
            if i < facts.len() && facts[i].placeholder {
                warnings.push(
                    PlanWarning::Hydration { path: from.copy(), size: facts[i].size },
                );
                assert(warnings_view(warnings@) =~= before.push(
                    PlanWarningView::Hydration { path: from@, size: facts@[i as int].size },
                ));
            }
        }
        i = i + 1;
        assert(warnings_view(warnings@) =~= start + source_warnings(all.take(i as int), facts@));
    }
    assert(all.take(i as int) =~= all);
}

/// The sum of two numbers, or the greatest number where the sum exceeds it.
fn add_capped(total: u64, size: u64) -> (r: u64)
    ensures
        r == capped(total as nat + size as nat),
{
    match total.checked_add(size) {
        Some(sum) => sum,
        None => u64::MAX,
    }
}

/// Adds what there is to say of the deletions in a plan.
fn append_delete_backup_warnings(
    warnings: &mut Vec<PlanWarning>,
    baseline: &BaselineTree,
    plan: &OperationPlan,
)
    ensures
        warnings_view(final(warnings)@) == warnings_view(old(warnings)@) + delete_warnings(
            plan@,
            baseline@.entries,
            baseline@.metas,
        ),
{
    let ghost start = warnings_view(old(warnings)@);
    let ghost all = plan@;
    let ghost metas = baseline@.metas;
    let entries = baseline.entries();
    let ghost tree = baseline@.entries;
    let mut saw_delete = false;
    let mut total: u64 = 0;
    let mut unknown = false;
    let mut i: usize = 0;
    assert(all.take(0) =~= Seq::empty());
    assert(warnings_view(warnings@) =~= start + deletions(all.take(0), tree, metas).warnings);
    while i < plan.ops.len()
        invariant
            i <= plan.ops@.len(),
            all == plan@,
            tree == baseline@.entries,
            tree == entries_view(entries@),
            metas == baseline@.metas,
            saw_delete == deletions(all.take(i as int), tree, metas).any,
            total == capped(deletions(all.take(i as int), tree, metas).total),
            unknown == deletions(all.take(i as int), tree, metas).unknown,
            warnings_view(warnings@) == start + deletions(
                all.take(i as int),
                tree,
                metas,
            ).warnings,
        decreases plan.ops@.len() - i,
    {
        let ghost before = deletions(all.take(i as int), tree, metas);
        proof {
            assert(all.take(i + 1).drop_last() =~= all.take(i as int));
            assert(all.take(i + 1).last() == plan.ops@[i as int]@);
        }
        if let FsOperation::Delete { path, .. } = &plan.ops[i] {
            saw_delete = true;
            let mut matched = false;
            let mut j: usize = 0;
            let ghost shown_before = warnings_view(warnings@);
            assert(tree.take(0) =~= Seq::empty());
            assert(warnings_view(warnings@) =~= shown_before + cloud_warnings(
                entries_within(tree.take(0), path@),
                metas,
            ));
            while j < entries.len()
                invariant
                    j <= entries@.len(),
                    tree == entries_view(entries@),
                    metas == baseline@.metas,
                    matched == (entries_within(tree.take(j as int), path@).len() > 0),
                    total == capped(
                        before.total + total_size(
                            entries_within(tree.take(j as int), path@),
                            metas,
                        ),
                    ),
                    unknown == (before.unknown || some_lack_size(
                        entries_within(tree.take(j as int), path@),
                        metas,
                    )),
                    warnings_view(warnings@) == shown_before + cloud_warnings(
                        entries_within(tree.take(j as int), path@),
                        metas,
                    ),
                decreases entries@.len() - j,
            {
                let entry = &entries[j];
                let ghost gone = entries_within(tree.take(j as int), path@);
                let ghost gone_next = entries_within(tree.take(j + 1), path@);
                let ghost shown_now = warnings_view(warnings@);
                proof {
                    assert(tree.take(j + 1).drop_last() =~= tree.take(j as int));
                    assert(tree.take(j + 1).last() == entry@);
                }
                if entry.path.same(path) || path.is_strict_ancestor_of(&entry.path) {
                    matched = true;
                    proof {
                        assert(gone_next == gone.push(entry@));
                        assert(gone_next.drop_last() =~= gone);
                        assert(gone_next.last() == entry@);
                        lemma_lack_step(gone, entry@, metas);
                    }
                    match baseline.meta(entry.id) {
                        None => {
                            unknown = true;
                        },
                        Some(meta) => {
                            match meta.size {
                                Some(size) => {
                                    total = add_capped(total, size);
                                },
                                None => {
                                    if entry.kind != EntryKind::Dir {
                                        unknown = true;
                                    }
                                },
                            }
                            if meta.is_placeholder {
                                warnings.push(
                                    PlanWarning::Hydration {
                                        path: entry.path.copy(),
                                        size: meta.size,
                                    },
                                );
                                assert(warnings_view(warnings@) =~= shown_now.push(
                                    PlanWarningView::Hydration {
                                        path: entry@.path,
                                        size: meta.size,
                                    },
                                ));
                            }
                        },
                    }
                } else {
                    assert(gone_next == gone);
                }
                j = j + 1;
                assert(warnings_view(warnings@) =~= shown_before + cloud_warnings(
                    gone_next,
                    metas,
                ));
            }
            assert(tree.take(j as int) =~= tree);
            if !matched {
                unknown = true;
            }
            assert(warnings_view(warnings@) =~= start + deletions(
                all.take(i + 1),
                tree,
                metas,
            ).warnings);
        }
        i = i + 1;
    }
    assert(all.take(i as int) =~= all);
    let ghost now = warnings_view(warnings@);
    if saw_delete {
        warnings.push(PlanWarning::Backup { reason: BackupReason::Delete, total, unknown });
        assert(warnings_view(warnings@) =~= now.push(
            PlanWarningView::Backup { reason: BackupReason::Delete, total, unknown },
        ));
    } else {
        proof {
            lemma_no_deletions(all, tree, metas);
        }
    }
    assert(warnings_view(warnings@) =~= start + delete_warnings(all, tree, metas));
}

/// Where nothing is deleted there is nothing to fetch for it.
proof fn lemma_no_deletions(
    ops: Seq<FsOperationView>,
    entries: Seq<EntryView>,
    metas: Map<u64, EntryMeta>,
)
    requires
        !deletions(ops, entries, metas).any,
    ensures
        deletions(ops, entries, metas).warnings == Seq::<PlanWarningView>::empty(),
    decreases ops.len(),
{
    if ops.len() > 0 {
        lemma_no_deletions(ops.drop_last(), entries, metas);
    }
}

/// One more entry lacks a size or does not.
proof fn lemma_lack_step(entries: Seq<EntryView>, entry: EntryView, metas: Map<u64, EntryMeta>)
    ensures
        some_lack_size(entries.push(entry), metas) == (some_lack_size(entries, metas)
            || lacks_size(entry, metas)),
{
    let longer = entries.push(entry);
    if some_lack_size(entries, metas) {
        let i = choose|i: int| 0 <= i < entries.len() && lacks_size(#[trigger] entries[i], metas);
        assert(lacks_size(longer[i], metas));
    }
    if lacks_size(entry, metas) {
        assert(lacks_size(longer[entries.len() as int], metas));
    }
    if some_lack_size(longer, metas) {
        let i = choose|i: int| 0 <= i < longer.len() && lacks_size(#[trigger] longer[i], metas);
        if i < entries.len() {
            assert(lacks_size(entries[i], metas));
        }
    }
}

/// Adds what there is to say of the entries that are overwritten.
fn append_overwrite_backup_warnings(
    warnings: &mut Vec<PlanWarning>,
    overwrites: &Vec<Overwrite>,
)
    ensures
        warnings_view(final(warnings)@) == warnings_view(old(warnings)@) + overwrite_warnings(
            overwrites_view(overwrites@),
        ),
{
    let ghost start = warnings_view(old(warnings)@);
    let ghost all = overwrites_view(overwrites@);
    if overwrites.len() == 0 {
        assert(warnings_view(warnings@) =~= start + overwrite_warnings(all));
        return;
    }
    let mut total: u64 = 0;
    let mut unknown = false;
    let mut i: usize = 0;
    assert(all.take(0) =~= Seq::empty());
    assert(warnings_view(warnings@) =~= start + overwrite_clouds(all.take(0)));
    while i < overwrites.len()
        invariant
            i <= overwrites@.len(),
            all == overwrites_view(overwrites@),
            total == capped(overwrite_total(all.take(i as int))),
            unknown == exists|k: int| 0 <= k < i && (#[trigger] all[k]).size is Unreadable,
            warnings_view(warnings@) == start + overwrite_clouds(all.take(i as int)),
        decreases overwrites@.len() - i,
    {
        let ghost before = warnings_view(warnings@);
        let overwrite = &overwrites[i];
        proof {
            assert(all.take(i + 1).drop_last() =~= all.take(i as int));
            assert(all.take(i + 1).last() == overwrite@);
            assert(all[i as int] == overwrite@);
        }
        let size = match overwrite.size {
            OverwriteSize::Directory => None,
            OverwriteSize::Known(size) => Some(size),
            OverwriteSize::Unreadable => {
                unknown = true;
                None
            },
        };
        if let Some(size) = size {
            total = add_capped(total, size);
        }
        if overwrite.placeholder {
            warnings.push(PlanWarning::Hydration { path: overwrite.path.copy(), size });
            assert(warnings_view(warnings@) =~= before.push(
                PlanWarningView::Hydration { path: overwrite.path@, size },
            ));
        }
        i = i + 1;
        assert(warnings_view(warnings@) =~= start + overwrite_clouds(all.take(i as int)));
    }
    assert(all.take(i as int) =~= all);
    let ghost now = warnings_view(warnings@);
    warnings.push(PlanWarning::Backup { reason: BackupReason::Overwrite, total, unknown });
    assert(warnings_view(warnings@) =~= now.push(
        PlanWarningView::Backup { reason: BackupReason::Overwrite, total, unknown },
    ));
    assert(warnings_view(warnings@) =~= start + overwrite_warnings(all));
}

/// What a user should know before a plan is done. `sources` says of each
/// operation what the file system says of its source.
pub fn plan_warnings(
    baseline: &BaselineTree,
    plan: &OperationPlan,
    sources: &Vec<SourceFact>,
    overwrites: &Vec<Overwrite>,
) -> (r: Vec<PlanWarning>)
    ensures
        warnings_view(r@) == expected_warnings(
            plan@,
            baseline@.entries,
            baseline@.metas,
            sources@,
            overwrites_view(overwrites@),
        ),
{
    let mut warnings: Vec<PlanWarning> = Vec::new();
    assert(warnings_view(warnings@) =~= Seq::empty());
    append_source_warnings(&mut warnings, plan, sources);
    append_delete_backup_warnings(&mut warnings, baseline, plan);
    append_overwrite_backup_warnings(&mut warnings, overwrites);
    assert(warnings_view(warnings@) =~= expected_warnings(
        plan@,
        baseline@.entries,
        baseline@.metas,
        sources@,
        overwrites_view(overwrites@),
    ));
    warnings
}

} // verus!
