//! Undo transactions: what a save has done, step by step, and how to take it
//! back.

use vstd::prelude::*;

use crate::fs_path::{FsPath, FsPathView};
use crate::report::{CommitReport, OpOutcomeView, OpResult};
use crate::tree::EntryKind;

verus! {

/// A point in time: seconds since the Unix epoch and the nanoseconds past them.
#[derive(Debug, Clone, Copy, PartialEq, Eq, Structural)]
pub struct FileTime {
    pub secs: i64,
    pub nanos: u32,
}

/// How a file system knows a file apart from its name.
#[derive(Debug, Clone, Copy, PartialEq, Eq, Structural)]
pub struct FileIdentity {
    pub volume: u64,
    pub file: u64,
}

/// What is remembered of an entry to see later whether it has changed.
#[derive(Debug, PartialEq, Eq)]
pub struct Fingerprint {
    pub kind: EntryKind,
    pub size: Option<u64>,
    pub mtime: Option<FileTime>,
    pub link_target: Option<FsPath>,
}

/// An entry below a directory that was copied.
#[derive(Debug, PartialEq, Eq)]
pub struct ManifestEntry {
    pub rel_path: String,
    pub kind: EntryKind,
    pub size: Option<u64>,
    pub mtime: Option<FileTime>,
}

/// Where a removed entry was kept.
#[derive(Debug, PartialEq, Eq)]
pub struct BackupRef {
    pub payload_rel: String,
    pub kind: EntryKind,
}

/// One step of an undo.
#[derive(Debug, PartialEq, Eq)]
pub enum UndoStep {
    RemoveCreated { path: FsPath, identity: Option<FileIdentity>, post: Fingerprint },
    RemoveCopied {
        path: FsPath,
        identity: Option<FileIdentity>,
        post: Fingerprint,
        manifest: Option<Vec<ManifestEntry>>,
    },
    MoveBack {
        from: FsPath,
        to: FsPath,
        identity: Option<FileIdentity>,
        post: Fingerprint,
        case_only: bool,
    },
    RestoreDeleted { path: FsPath, backup: BackupRef },
    RestoreOverwritten { path: FsPath, backup: BackupRef },
}

/// Everything that one save has done.
#[derive(Debug, PartialEq, Eq)]
pub struct UndoTransaction {
    pub id: String,
    pub root: FsPath,
    pub steps: Vec<UndoStep>,
    pub backup_dir: Option<FsPath>,
}

/// What a look at the files says of a step before the undo.
#[derive(Debug, PartialEq, Eq)]
pub enum UndoStepStatus {
    Ready,
    Rejected { reason: String },
}

#[verifier::ext_equal]
pub struct FingerprintView {
    pub kind: EntryKind,
    pub size: Option<u64>,
    pub mtime: Option<FileTime>,
    pub link_target: Option<FsPathView>,
}

#[verifier::ext_equal]
pub struct ManifestEntryView {
    pub rel_path: Seq<char>,
    pub kind: EntryKind,
    pub size: Option<u64>,
    pub mtime: Option<FileTime>,
}

#[verifier::ext_equal]
pub struct BackupRefView {
    pub payload_rel: Seq<char>,
    pub kind: EntryKind,
}

#[verifier::ext_equal]
pub enum UndoStepView {
    RemoveCreated { path: FsPathView, identity: Option<FileIdentity>, post: FingerprintView },
    RemoveCopied {
        path: FsPathView,
        identity: Option<FileIdentity>,
        post: FingerprintView,
        manifest: Option<Seq<ManifestEntryView>>,
    },
    MoveBack {
        from: FsPathView,
        to: FsPathView,
        identity: Option<FileIdentity>,
        post: FingerprintView,
        case_only: bool,
    },
    RestoreDeleted { path: FsPathView, backup: BackupRefView },
    RestoreOverwritten { path: FsPathView, backup: BackupRefView },
}

#[verifier::ext_equal]
pub struct UndoTransactionView {
    pub id: Seq<char>,
    pub root: FsPathView,
    pub steps: Seq<UndoStepView>,
    pub backup_dir: Option<FsPathView>,
}

#[verifier::ext_equal]
pub enum UndoStepStatusView {
    Ready,
    Rejected { reason: Seq<char> },
}

/// What an optional path is.
pub open spec fn path_view(path: Option<FsPath>) -> Option<FsPathView> {
    match path {
        Some(path) => Some(path@),
        None => None,
    }
}

/// What the entries of a manifest are.
pub open spec fn manifest_view(entries: Seq<ManifestEntry>) -> Seq<ManifestEntryView> {
    entries.map_values(|entry: ManifestEntry| entry@)
}

/// What the steps of an undo are.
pub open spec fn steps_view(steps: Seq<UndoStep>) -> Seq<UndoStepView> {
    steps.map_values(|step: UndoStep| step@)
}

impl FileTime {
    /// Whether the nanoseconds stay below a second.
    pub open spec fn wf(self) -> bool {
        self.nanos < 1_000_000_000
    }
}

impl Fingerprint {
    pub open spec fn view(&self) -> FingerprintView {
        FingerprintView {
            kind: self.kind,
            size: self.size,
            mtime: self.mtime,
            link_target: path_view(self.link_target),
        }
    }

    /// The same once more.
    pub fn copy(&self) -> (r: Fingerprint)
        ensures
            r@ == self@,
    {
        Fingerprint {
            kind: self.kind,
            size: self.size,
            mtime: self.mtime,
            link_target: copy_path(&self.link_target),
        }
    }
}

/// An optional path once more.
pub fn copy_path(path: &Option<FsPath>) -> (r: Option<FsPath>)
    ensures
        path_view(r) == path_view(*path),
{
    match path {
        Some(path) => Some(path.copy()),
        None => None,
    }
}

impl ManifestEntry {
    pub open spec fn view(&self) -> ManifestEntryView {
        ManifestEntryView {
            rel_path: self.rel_path@,
            kind: self.kind,
            size: self.size,
            mtime: self.mtime,
        }
    }

    /// The same once more.
    pub fn copy(&self) -> (r: ManifestEntry)
        ensures
            r@ == self@,
    {
        ManifestEntry {
            rel_path: self.rel_path.clone(),
            kind: self.kind,
            size: self.size,
            mtime: self.mtime,
        }
    }
}

/// The entries of a manifest once more.
fn copy_manifest(entries: &Vec<ManifestEntry>) -> (r: Vec<ManifestEntry>)
    ensures
        manifest_view(r@) == manifest_view(entries@),
{
    let mut copy: Vec<ManifestEntry> = Vec::new();
    let mut i: usize = 0;
    while i < entries.len()
        invariant
            i <= entries@.len(),
            copy@.len() == i,
            forall|j: int| 0 <= j < i ==> (#[trigger] copy@[j])@ == entries@[j]@,
        decreases entries@.len() - i,
    {
        copy.push(entries[i].copy());
        i = i + 1;
    }
    assert(manifest_view(copy@) =~= manifest_view(entries@));
    copy
}

impl BackupRef {
    pub open spec fn view(&self) -> BackupRefView {
        BackupRefView { payload_rel: self.payload_rel@, kind: self.kind }
    }

    /// The same once more.
    pub fn copy(&self) -> (r: BackupRef)
        ensures
            r@ == self@,
    {
        BackupRef { payload_rel: self.payload_rel.clone(), kind: self.kind }
    }
}

impl UndoStep {
    pub open spec fn view(&self) -> UndoStepView {
        match self {
            UndoStep::RemoveCreated { path, identity, post } => UndoStepView::RemoveCreated {
                path: path@,
                identity: *identity,
                post: post@,
            },
            UndoStep::RemoveCopied { path, identity, post, manifest } => UndoStepView::RemoveCopied {
                path: path@,
                identity: *identity,
                post: post@,
                manifest: match manifest {
                    Some(entries) => Some(manifest_view(entries@)),
                    None => None,
                },
            },
            UndoStep::MoveBack { from, to, identity, post, case_only } => UndoStepView::MoveBack {
                from: from@,
                to: to@,
                identity: *identity,
                post: post@,
                case_only: *case_only,
            },
            UndoStep::RestoreDeleted { path, backup } => UndoStepView::RestoreDeleted {
                path: path@,
                backup: backup@,
            },
            UndoStep::RestoreOverwritten { path, backup } => UndoStepView::RestoreOverwritten {
                path: path@,
                backup: backup@,
            },
        }
    }

    /// The same once more.
    pub fn copy(&self) -> (r: UndoStep)
        ensures
            r@ == self@,
    {
        match self {
            UndoStep::RemoveCreated { path, identity, post } => UndoStep::RemoveCreated {
                path: path.copy(),
                identity: *identity,
                post: post.copy(),
            },
            UndoStep::RemoveCopied { path, identity, post, manifest } => UndoStep::RemoveCopied {
                path: path.copy(),
                identity: *identity,
                post: post.copy(),
                manifest: match manifest {
                    Some(entries) => Some(copy_manifest(entries)),
                    None => None,
                },
            },
            UndoStep::MoveBack { from, to, identity, post, case_only } => UndoStep::MoveBack {
                from: from.copy(),
                to: to.copy(),
                identity: *identity,
                post: post.copy(),
                case_only: *case_only,
            },
            UndoStep::RestoreDeleted { path, backup } => UndoStep::RestoreDeleted {
                path: path.copy(),
                backup: backup.copy(),
            },
            UndoStep::RestoreOverwritten { path, backup } => UndoStep::RestoreOverwritten {
                path: path.copy(),
                backup: backup.copy(),
            },
        }
    }
}

impl UndoTransaction {
    pub open spec fn view(&self) -> UndoTransactionView {
        UndoTransactionView {
            id: self.id@,
            root: self.root@,
            steps: steps_view(self.steps@),
            backup_dir: path_view(self.backup_dir),
        }
    }

    /// The same once more.
    pub fn copy(&self) -> (r: UndoTransaction)
        ensures
            r@ == self@,
    {
        let mut steps: Vec<UndoStep> = Vec::new();
        let mut i: usize = 0;
        while i < self.steps.len()
            invariant
                i <= self.steps@.len(),
                steps@.len() == i,
                forall|j: int| 0 <= j < i ==> (#[trigger] steps@[j])@ == self.steps@[j]@,
            decreases self.steps@.len() - i,
        {
            steps.push(self.steps[i].copy());
            i = i + 1;
        }
        assert(steps_view(steps@) =~= steps_view(self.steps@));
        UndoTransaction {
            id: self.id.clone(),
            root: self.root.copy(),
            steps,
            backup_dir: copy_path(&self.backup_dir),
        }
    }
}

impl UndoStepStatus {
    pub open spec fn view(&self) -> UndoStepStatusView {
        match self {
            UndoStepStatus::Ready => UndoStepStatusView::Ready,
            UndoStepStatus::Rejected { reason } => UndoStepStatusView::Rejected { reason: reason@ },
        }
    }
}

/// Whether two optional paths are the same.
fn same_optional_path(a: &Option<FsPath>, b: &Option<FsPath>) -> (r: bool)
    ensures
        r == (path_view(*a) == path_view(*b)),
{
    match (a, b) {
        (Some(a), Some(b)) => a.same(b),
        (None, None) => true,
        _ => false,
    }
}

impl Fingerprint {
    /// Whether two fingerprints are the same.
    pub fn same(&self, other: &Fingerprint) -> (r: bool)
        ensures
            r == (self@ == other@),
    {
        self.kind == other.kind && same_number(self.size, other.size) && same_time(
            self.mtime,
            other.mtime,
        ) && same_optional_path(&self.link_target, &other.link_target)
    }
}

/// Whether two optional numbers are the same.
fn same_number(a: Option<u64>, b: Option<u64>) -> (r: bool)
    ensures
        r == (a == b),
{
    match (a, b) {
        (Some(a), Some(b)) => a == b,
        (None, None) => true,
        _ => false,
    }
}

/// Whether two optional times are the same.
fn same_time(a: Option<FileTime>, b: Option<FileTime>) -> (r: bool)
    ensures
        r == (a == b),
{
    match (a, b) {
        (Some(a), Some(b)) => a == b,
        (None, None) => true,
        _ => false,
    }
}

/// Whether two optional identities are the same.
fn same_identity(a: Option<FileIdentity>, b: Option<FileIdentity>) -> (r: bool)
    ensures
        r == (a == b),
{
    match (a, b) {
        (Some(a), Some(b)) => a == b,
        (None, None) => true,
        _ => false,
    }
}

impl ManifestEntry {
    /// Whether two entries are the same.
    pub fn same(&self, other: &ManifestEntry) -> (r: bool)
        ensures
            r == (self@ == other@),
    {
        self.rel_path == other.rel_path && self.kind == other.kind && same_number(
            self.size,
            other.size,
        ) && same_time(self.mtime, other.mtime)
    }
}

/// Whether two manifests are the same.
fn same_manifest(a: &Vec<ManifestEntry>, b: &Vec<ManifestEntry>) -> (r: bool)
    ensures
        r == (manifest_view(a@) == manifest_view(b@)),
{
    let ghost mine = manifest_view(a@);
    let ghost theirs = manifest_view(b@);
    if a.len() != b.len() {
        assert(mine.len() != theirs.len());
        return false;
    }
    let mut i: usize = 0;
    while i < a.len()
        invariant
            i <= a@.len() == b@.len(),
            mine == manifest_view(a@),
            theirs == manifest_view(b@),
            forall|j: int| 0 <= j < i ==> #[trigger] mine[j] == theirs[j],
        decreases a@.len() - i,
    {
        if !a[i].same(&b[i]) {
            assert(mine[i as int] != theirs[i as int]);
            return false;
        }
        assert(mine[i as int] == theirs[i as int]);
        i = i + 1;
    }
    assert(mine =~= theirs);
    true
}

impl BackupRef {
    /// Whether two kept entries are the same.
    pub fn same(&self, other: &BackupRef) -> (r: bool)
        ensures
            r == (self@ == other@),
    {
        self.payload_rel == other.payload_rel && self.kind == other.kind
    }
}

impl UndoStep {
    /// Whether two steps are the same.
    pub fn same(&self, other: &UndoStep) -> (r: bool)
        ensures
            r == (self@ == other@),
    {
        match (self, other) {
            (
                UndoStep::RemoveCreated { path, identity, post },
                UndoStep::RemoveCreated {
                    path: other_path,
                    identity: other_identity,
                    post: other_post,
                },
            ) => path.same(other_path) && same_identity(*identity, *other_identity) && post.same(
                other_post,
            ),
            (
                UndoStep::RemoveCopied { path, identity, post, manifest },
                UndoStep::RemoveCopied {
                    path: other_path,
                    identity: other_identity,
                    post: other_post,
                    manifest: other_manifest,
                },
            ) => path.same(other_path) && same_identity(*identity, *other_identity) && post.same(
                other_post,
            ) && (match (manifest, other_manifest) {
                (Some(mine), Some(theirs)) => same_manifest(mine, theirs),
                (None, None) => true,
                _ => false,
            }),
            (
                UndoStep::MoveBack { from, to, identity, post, case_only },
                UndoStep::MoveBack {
                    from: other_from,
                    to: other_to,
                    identity: other_identity,
                    post: other_post,
                    case_only: other_case_only,
                },
            ) => from.same(other_from) && to.same(other_to) && same_identity(
                *identity,
                *other_identity,
            ) && post.same(other_post) && *case_only == *other_case_only,
            (
                UndoStep::RestoreDeleted { path, backup },
                UndoStep::RestoreDeleted { path: other_path, backup: other_backup },
            ) => path.same(other_path) && backup.same(other_backup),
            (
                UndoStep::RestoreOverwritten { path, backup },
                UndoStep::RestoreOverwritten { path: other_path, backup: other_backup },
            ) => path.same(other_path) && backup.same(other_backup),
            _ => false,
        }
    }
}

impl UndoTransaction {
    /// Whether two transactions are the same.
    pub fn same(&self, other: &UndoTransaction) -> (r: bool)
        ensures
            r == (self@ == other@),
    {
        if self.id != other.id || !self.root.same(&other.root) || !same_optional_path(
            &self.backup_dir,
            &other.backup_dir,
        ) {
            return false;
        }
        let ghost mine = steps_view(self.steps@);
        let ghost theirs = steps_view(other.steps@);
        if self.steps.len() != other.steps.len() {
            assert(mine.len() != theirs.len());
            return false;
        }
        let mut i: usize = 0;
        while i < self.steps.len()
            invariant
                i <= self.steps@.len() == other.steps@.len(),
                mine == steps_view(self.steps@),
                theirs == steps_view(other.steps@),
                mine == self@.steps,
                theirs == other@.steps,
                forall|j: int| 0 <= j < i ==> #[trigger] mine[j] == theirs[j],
            decreases self.steps@.len() - i,
        {
            if !self.steps[i].same(&other.steps[i]) {
                assert(mine[i as int] != theirs[i as int]);
                return false;
            }
            assert(mine[i as int] == theirs[i as int]);
            i = i + 1;
        }
        assert(mine =~= theirs);
        true
    }
}

impl UndoStepStatus {
    /// Whether two statuses are the same.
    pub fn same(&self, other: &UndoStepStatus) -> (r: bool)
        ensures
            r == (self@ == other@),
    {
        match (self, other) {
            (UndoStepStatus::Ready, UndoStepStatus::Ready) => true,
            (
                UndoStepStatus::Rejected { reason },
                UndoStepStatus::Rejected { reason: other_reason },
            ) => *reason == *other_reason,
            _ => false,
        }
    }
}

/// What statuses are.
pub open spec fn statuses_view(statuses: Seq<UndoStepStatus>) -> Seq<UndoStepStatusView> {
    statuses.map_values(|status: UndoStepStatus| status@)
}

/// Whether two lists of statuses are the same.
pub fn same_statuses(a: &Vec<UndoStepStatus>, b: &Vec<UndoStepStatus>) -> (r: bool)
    ensures
        r == (statuses_view(a@) == statuses_view(b@)),
{
    let ghost mine = statuses_view(a@);
    let ghost theirs = statuses_view(b@);
    if a.len() != b.len() {
        assert(mine.len() != theirs.len());
        return false;
    }
    let mut i: usize = 0;
    while i < a.len()
        invariant
            i <= a@.len() == b@.len(),
            mine == statuses_view(a@),
            theirs == statuses_view(b@),
            forall|j: int| 0 <= j < i ==> #[trigger] mine[j] == theirs[j],
        decreases a@.len() - i,
    {
        if !a[i].same(&b[i]) {
            assert(mine[i as int] != theirs[i as int]);
            return false;
        }
        assert(mine[i as int] == theirs[i as int]);
        i = i + 1;
    }
    assert(mine =~= theirs);
    true
}

/// What a report says of the steps of an undo.
pub open spec fn undo_report_view(results: Seq<OpResult<UndoStep>>) -> Seq<
    (UndoStepView, OpOutcomeView),
> {
    results.map_values(|result: OpResult<UndoStep>| (result.op@, result.outcome@))
}

/// Whether two reports are the same.
pub fn same_undo_report(a: &CommitReport<UndoStep>, b: &CommitReport<UndoStep>) -> (r: bool)
    ensures
        r == (undo_report_view(a.results@) == undo_report_view(b.results@)),
{
    let ghost mine = undo_report_view(a.results@);
    let ghost theirs = undo_report_view(b.results@);
    if a.results.len() != b.results.len() {
        assert(mine.len() != theirs.len());
        return false;
    }
    let mut i: usize = 0;
    while i < a.results.len()
        invariant
            i <= a.results@.len() == b.results@.len(),
            mine == undo_report_view(a.results@),
            theirs == undo_report_view(b.results@),
            forall|j: int| 0 <= j < i ==> #[trigger] mine[j] == theirs[j],
        decreases a.results@.len() - i,
    {
        if !a.results[i].op.same(&b.results[i].op) || !a.results[i].outcome.same(
            &b.results[i].outcome,
        ) {
            assert(mine[i as int] != theirs[i as int]);
            return false;
        }
        assert(mine[i as int] == theirs[i as int]);
        i = i + 1;
    }
    assert(mine =~= theirs);
    true
}

} // verus!
