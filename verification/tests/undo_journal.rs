use fyler_app::fs_path::{FsPath, JoinedPath};
use fyler_app::tree::EntryKind;
use fyler_app::undo::{
    BackupRef, FileIdentity, FileTime, Fingerprint, ManifestEntry, UndoStep, UndoTransaction,
};
use fyler_app::undo_journal::{
    new_transaction_id, read_manifest_state, read_transaction, scan_transaction, undo_dir,
    JournalEntry, JournalEnvironment, JournalState, ScanAction, ScannedTransaction,
    TransactionCounter, UndoJournal,
};

fn path(text: &str) -> FsPath {
    FsPath::from_text(text)
}

fn test_time(offset: i64) -> FileTime {
    FileTime { secs: 1_700_000_000 + offset, nanos: 123_000_000 }
}

fn fingerprint(kind: EntryKind) -> Fingerprint {
    Fingerprint {
        kind,
        size: (kind == EntryKind::File).then_some(42),
        mtime: (kind == EntryKind::File).then_some(test_time(1)),
        link_target: if kind == EntryKind::Symlink { Some(path("/target")) } else { None },
    }
}

fn all_step_transaction(id: &str, dir: &str) -> UndoTransaction {
    UndoTransaction {
        id: id.to_owned(),
        root: path("/root"),
        steps: vec![
            UndoStep::RemoveCreated {
                path: path("/root/created.txt"),
                identity: Some(FileIdentity { volume: 1, file: 2 }),
                post: fingerprint(EntryKind::File),
            },
            UndoStep::RemoveCopied {
                path: path("/root/copied-dir"),
                identity: Some(FileIdentity { volume: 3, file: 4 }),
                post: fingerprint(EntryKind::Dir),
                manifest: Some(vec![ManifestEntry {
                    rel_path: "child.txt".to_owned(),
                    kind: EntryKind::File,
                    size: Some(7),
                    mtime: Some(test_time(2)),
                }]),
            },
            UndoStep::MoveBack {
                from: path("/root/old.txt"),
                to: path("/root/new.txt"),
                identity: None,
                post: fingerprint(EntryKind::File),
                case_only: false,
            },
            UndoStep::RestoreDeleted {
                path: path("/root/deleted.txt"),
                backup: BackupRef {
                    payload_rel: "payload/0/deleted.txt".to_owned(),
                    kind: EntryKind::File,
                },
            },
            UndoStep::RestoreOverwritten {
                path: path("/root/overwritten.txt"),
                backup: BackupRef {
                    payload_rel: "payload/4/overwritten.txt".to_owned(),
                    kind: EntryKind::File,
                },
            },
        ],
        backup_dir: Some(path(dir)),
    }
}

fn journal() -> UndoJournal {
    UndoJournal { dir: path("/undo") }
}

#[test]
fn wal_lifecycle_writes_states_and_finish_removes_transaction_dir() {
    let journal = journal();
    let begun = journal.begin("tx-1", &path("/root")).unwrap();
    assert_eq!(begun.dir, JoinedPath::bare(path("/undo")).join("tx-1"));
    assert_eq!(
        read_manifest_state(&begun.text).unwrap(),
        ("tx-1".to_owned(), JournalState::Preparing)
    );

    let transaction = all_step_transaction("tx-1", "/undo/tx-1");
    let committed = journal.commit(&transaction).unwrap();
    assert_eq!(committed.dir, begun.dir);
    assert_eq!(
        read_manifest_state(&committed.text).unwrap(),
        ("tx-1".to_owned(), JournalState::Committed)
    );

    let undoing = journal.mark_undoing("tx-1", &committed.text).unwrap();
    assert_eq!(undoing.dir, begun.dir);
    assert_eq!(
        read_manifest_state(&undoing.text).unwrap(),
        ("tx-1".to_owned(), JournalState::Undoing)
    );

    let (undone, payload, removed) = journal.finish_undone("tx-1", &undoing.text).unwrap();
    assert_eq!(
        read_manifest_state(&undone.text).unwrap(),
        ("tx-1".to_owned(), JournalState::Undone)
    );
    assert_eq!(payload.names, ["tx-1", "payload"]);
    assert_eq!(removed, JoinedPath::bare(path("/undo")).join("tx-1"));
}

#[test]
fn discard_removes_transaction_directory() {
    let journal = journal();
    let begun = journal.begin("tx-discard", &path("/root")).unwrap();
    assert_eq!(journal.discard("tx-discard"), begun.dir);
}

fn scanned(name: &str, manifest: Option<String>) -> ScannedTransaction {
    ScannedTransaction {
        name: name.to_owned(),
        dir: path(&format!("/undo/{name}")),
        manifest,
    }
}

#[test]
fn scan_on_startup_purges_committed_and_returns_preparing() {
    let journal = journal();
    let committed = journal
        .commit(&all_step_transaction("committed", "/undo/committed"))
        .unwrap();
    let preparing = journal.begin("preparing", &path("/root")).unwrap();
    let actions = journal.scan_on_startup(vec![
        scanned("committed", Some(committed.text)),
        scanned("preparing", Some(preparing.text)),
    ]);
    assert_eq!(
        actions,
        [
            ScanAction::Remove(path("/undo/committed")),
            ScanAction::Keep(JournalEntry {
                id: "preparing".to_owned(),
                state: JournalState::Preparing,
                dir: path("/undo/preparing"),
            }),
        ]
    );
}

#[test]
fn scan_on_startup_returns_empty_for_empty_directory() {
    assert!(journal().scan_on_startup(Vec::new()).is_empty());
}

#[test]
fn unreadable_transactions_wait_for_a_word() {
    for manifest in [None, Some("state = [".to_owned()), Some("id = 1".to_owned())] {
        assert_eq!(
            scan_transaction(scanned("broken", manifest)),
            ScanAction::Keep(JournalEntry {
                id: "broken".to_owned(),
                state: JournalState::Preparing,
                dir: path("/undo/broken"),
            })
        );
    }
}

#[test]
fn manifest_roundtrips_all_undo_step_variants() {
    let transaction = all_step_transaction("roundtrip", "/undo/roundtrip");
    let written = journal().commit(&transaction).unwrap();
    let (state, actual) = read_transaction(&written.text, &path("/undo/roundtrip")).unwrap();
    assert_eq!(state, JournalState::Committed);
    assert_eq!(actual, transaction);
}

#[test]
fn transaction_reads_back_links() {
    let mut transaction = all_step_transaction("links", "/undo/links");
    transaction.steps = vec![UndoStep::RemoveCreated {
        path: path("/root/link"),
        identity: None,
        post: fingerprint(EntryKind::Symlink),
    }];
    let written = journal().commit(&transaction).unwrap();
    let (_, actual) = read_transaction(&written.text, &path("/undo/links")).unwrap();
    assert_eq!(actual, transaction);
}

#[test]
fn open_uses_fyler_undo_dir_override() {
    let environment = JournalEnvironment {
        fyler_undo_dir: Some(path("/override")),
        local_app_data: Some(path("/local")),
        xdg_state_home: Some(path("/state")),
        home: Some(path("/home")),
    };
    assert_eq!(
        undo_dir(&environment, false),
        Ok(JoinedPath::bare(path("/override")))
    );
    let unset = JournalEnvironment { fyler_undo_dir: None, ..environment };
    assert_eq!(undo_dir(&unset, true).unwrap().base, path("/local"));
    assert_eq!(undo_dir(&unset, false).unwrap().base, path("/state"));
    let nothing = JournalEnvironment {
        fyler_undo_dir: Some(path("")),
        local_app_data: None,
        xdg_state_home: None,
        home: None,
    };
    assert!(undo_dir(&nothing, false).is_err());
}

#[test]
fn states_are_read_as_they_are_written() {
    for state in [
        JournalState::Preparing,
        JournalState::Committed,
        JournalState::Undoing,
        JournalState::Undone,
    ] {
        assert_eq!(JournalState::from_str(state.as_str()), Ok(state));
    }
    assert!(JournalState::from_str("unheard of").is_err());
}

#[test]
fn transaction_names_differ() {
    let first = new_transaction_id(1_700_000_000_000, 7, 1);
    let second = new_transaction_id(1_700_000_000_000, 7, 2);
    assert_ne!(first, second);
    assert_eq!(first, new_transaction_id(1_700_000_000_000, 7, 1));
}

#[test]
fn counter_gives_every_transaction_its_own_name() {
    let mut counter = TransactionCounter::new();
    assert_eq!(counter.next_id(1_700_000_000_000, 7), "1700000000000-7-0");
    assert_eq!(counter.next_id(1_700_000_000_000, 7), "1700000000000-7-1");
    assert_eq!(counter.next_id(1_699_999_999_999, 7), "1699999999999-7-2");
}

#[test]
fn transaction_without_a_manifest_is_not_committed() {
    let mut transaction = all_step_transaction("tx", "/undo/tx");
    transaction.root = FsPath { text: "/r\u{fffd}".to_owned(), raw: Some(vec![b'/', b'r', 0xff]) };
    assert_eq!(
        journal().commit(&transaction).unwrap_err(),
        "Root recorded in undo journal is not UTF-8: /r\u{fffd}"
    );
    let mut transaction = all_step_transaction("tx", "/undo/tx");
    transaction.steps = vec![UndoStep::RemoveCreated {
        path: FsPath { text: "\u{fffd}".to_owned(), raw: Some(vec![0xff]) },
        identity: None,
        post: fingerprint(EntryKind::File),
    }];
    assert_eq!(journal().commit(&transaction).unwrap_err(), "Path is not UTF-8");
}
