use fyler_app::fs_path::FsPath;
use fyler_app::report::{CommitReport, OpOutcome, OpResult};
use fyler_app::tree::EntryKind;
use fyler_app::undo::{BackupRef, Fingerprint, UndoStep, UndoStepStatus, UndoTransaction};
use fyler_app::undo_format::{
    journal_state_label, recovery_descriptions, should_show_undo_recovery, undo_plan_lines,
    undo_report_lines, undo_step_label,
};
use fyler_app::undo_journal::{JournalEntry, JournalState};

fn path(text: &str) -> FsPath {
    FsPath::from_text(text)
}

fn fingerprint(kind: EntryKind) -> Fingerprint {
    Fingerprint { kind, size: None, mtime: None, link_target: None }
}

fn backup() -> BackupRef {
    BackupRef { payload_rel: "payload/0/file.txt".to_owned(), kind: EntryKind::File }
}

#[test]
fn formats_each_undo_step_variant() {
    let steps = [
        UndoStep::RemoveCreated {
            path: path("/root/created.txt"),
            identity: None,
            post: fingerprint(EntryKind::File),
        },
        UndoStep::RemoveCopied {
            path: path("/root/copied.txt"),
            identity: None,
            post: fingerprint(EntryKind::File),
            manifest: None,
        },
        UndoStep::MoveBack {
            from: path("/root/a.txt"),
            to: path("/root/b.txt"),
            identity: None,
            post: fingerprint(EntryKind::File),
            case_only: false,
        },
        UndoStep::RestoreDeleted { path: path("/root/deleted.txt"), backup: backup() },
        UndoStep::RestoreOverwritten { path: path("/root/target.txt"), backup: backup() },
    ];
    let labels = steps.iter().map(undo_step_label).collect::<Vec<_>>();
    assert_eq!(
        labels,
        [
            "UNDO CREATE /root/created.txt",
            "UNDO COPY /root/copied.txt",
            "UNDO MOVE /root/b.txt → /root/a.txt",
            "UNDO DELETE /root/deleted.txt",
            "UNDO OVERWRITE /root/target.txt",
        ]
    );
}

#[test]
fn undo_plan_lines_include_rejected_reasons() {
    let transaction = UndoTransaction {
        id: "tx".to_owned(),
        root: path("/root"),
        steps: vec![UndoStep::RemoveCreated {
            path: path("/root/created.txt"),
            identity: None,
            post: fingerprint(EntryKind::File),
        }],
        backup_dir: None,
    };
    let lines = undo_plan_lines(
        &transaction,
        &vec![UndoStepStatus::Rejected { reason: "変更されています".to_owned() }],
    );
    assert_eq!(
        lines,
        ["UNDO CREATE /root/created.txt", "  [対象外] 変更されています"]
    );
}

#[test]
fn undo_report_lines_mark_failures_and_progress() {
    let report = CommitReport {
        results: vec![OpResult {
            op: UndoStep::RestoreDeleted { path: path("/root/deleted.txt"), backup: backup() },
            outcome: OpOutcome::Failed {
                error: "復元できません".to_owned(),
                progress: Some("1/2 files".to_owned()),
            },
        }],
    };
    let (lines, any_failed) = undo_report_lines(&report);
    assert!(any_failed);
    assert_eq!(
        lines,
        ["NG  UNDO DELETE /root/deleted.txt (reason: 復元できません / progress: 1/2 files)"]
    );
}

fn entry(id: &str, state: JournalState) -> JournalEntry {
    JournalEntry { id: id.to_owned(), state, dir: path(&format!("/undo/{id}")) }
}

#[test]
fn recovery_dialog_is_shown_only_for_preparing_or_undoing() {
    assert!(!should_show_undo_recovery(&[]));
    assert!(!should_show_undo_recovery(&[entry("done", JournalState::Committed)]));
    assert!(should_show_undo_recovery(&[entry("preparing", JournalState::Preparing)]));
    assert!(should_show_undo_recovery(&[
        entry("done", JournalState::Undone),
        entry("undoing", JournalState::Undoing),
    ]));
}

#[test]
fn recovery_names_each_transaction() {
    let described = recovery_descriptions(&vec![entry("tx-9", JournalState::Undoing)]);
    assert_eq!(described.len(), 1);
    assert!(described[0].contains("tx-9"));
    assert!(described[0].contains(journal_state_label(JournalState::Undoing)));
}
