//! Reading undo manifests back.

use vstd::prelude::*;

use crate::fs_path::{unicode_path, FsPath, FsPathView};
use crate::text::{lemma_parse_decimal, parse_number, parse_u64, same_text};
use crate::toml_doc::{
    lemma_lookup_no_entries, lemma_lookup_with_entry, lookup, no_entries, Toml, TomlTable,
    TomlValue,
};
use crate::tree::EntryKind;
use crate::undo::{
    manifest_view, steps_view, BackupRef, BackupRefView, FileIdentity, FileTime, Fingerprint,
    FingerprintView, ManifestEntry, ManifestEntryView, UndoStep, UndoStepView, UndoTransaction,
    UndoTransactionView,
};
use crate::undo_journal::{
    backup_entries, fingerprint_entries, kind_text, manifest_entry_entries, manifest_values,
    state_of, state_word_is_read_back, step_entries, step_values, transaction_entries, values_view,
    with_identity, Entries, JournalState,
};

verus! {

/// The text under a key, which must be there.
pub open spec fn string_field(table: Entries, key: Seq<char>) -> Result<Seq<char>, Seq<char>> {
    match lookup(table, key) {
        Some(Toml::Str(text)) => Ok(text),
        _ => Err(key + " must be a string"@),
    }
}

/// The text under a key, if the key is there.
pub open spec fn optional_string_field(table: Entries, key: Seq<char>) -> Result<
    Option<Seq<char>>,
    Seq<char>,
> {
    match lookup(table, key) {
        None => Ok(None),
        Some(Toml::Str(text)) => Ok(Some(text)),
        _ => Err(key + " must be a string"@),
    }
}

/// The table under a key, which must be there.
pub open spec fn table_field(table: Entries, key: Seq<char>) -> Result<Entries, Seq<char>> {
    match lookup(table, key) {
        Some(Toml::Table(inner)) => Ok(inner),
        _ => Err(key + " must be a table"@),
    }
}

/// The list under a key, which must be there.
pub open spec fn array_field(table: Entries, key: Seq<char>) -> Result<Seq<Toml>, Seq<char>> {
    match lookup(table, key) {
        Some(Toml::Array(items)) => Ok(items),
        _ => Err(key + " must be an array"@),
    }
}

/// The list under a key, if the key is there.
pub open spec fn optional_array_field(table: Entries, key: Seq<char>) -> Result<
    Option<Seq<Toml>>,
    Seq<char>,
> {
    match lookup(table, key) {
        None => Ok(None),
        Some(Toml::Array(items)) => Ok(Some(items)),
        _ => Err(key + " must be an array"@),
    }
}

/// The flag under a key, which must be there.
pub open spec fn bool_field(table: Entries, key: Seq<char>) -> Result<bool, Seq<char>> {
    match lookup(table, key) {
        Some(Toml::Boolean(flag)) => Ok(flag),
        _ => Err(key + " must be a boolean"@),
    }
}

/// The integer under a key, if the key is there.
pub open spec fn optional_i64_field(table: Entries, key: Seq<char>) -> Result<
    Option<i64>,
    Seq<char>,
> {
    match lookup(table, key) {
        None => Ok(None),
        Some(Toml::Integer(number)) => Ok(Some(number)),
        _ => Err(key + " must be an integer"@),
    }
}

/// The integer under a key, which must not be negative, if the key is there.
pub open spec fn optional_u64_field(table: Entries, key: Seq<char>) -> Result<
    Option<u64>,
    Seq<char>,
> {
    match optional_i64_field(table, key) {
        Err(message) => Err(message),
        Ok(None) => Ok(None),
        Ok(Some(number)) => if number >= 0 {
            Ok(Some(number as u64))
        } else {
            Err(key + " is negative"@)
        },
    }
}

/// The number written as text under a key, which must be there.
pub open spec fn number_field(table: Entries, key: Seq<char>) -> Result<u64, Seq<char>> {
    match string_field(table, key) {
        Err(message) => Err(message),
        Ok(text) => match parse_number(text) {
            Some(number) => Ok(number),
            None => Err(key + " must be a number"@),
        },
    }
}

/// The kind of entry that a word stands for.
pub open spec fn kind_of(text: Seq<char>) -> Option<EntryKind> {
    if text == "file"@ {
        Some(EntryKind::File)
    } else if text == "dir"@ {
        Some(EntryKind::Dir)
    } else if text == "symlink"@ {
        Some(EntryKind::Symlink)
    } else {
        None
    }
}

/// The kind of entry in a table.
pub open spec fn kind_field(table: Entries) -> Result<EntryKind, Seq<char>> {
    match string_field(table, "kind"@) {
        Err(message) => Err(message),
        Ok(text) => match kind_of(text) {
            Some(kind) => Ok(kind),
            None => Err("Unknown entry kind: "@ + text),
        },
    }
}

/// The identity of a file in a table, if it is there.
pub open spec fn identity_of(table: Entries) -> Result<Option<FileIdentity>, Seq<char>> {
    match lookup(table, "identity"@) {
        None => Ok(None),
        Some(Toml::Table(inner)) => match number_field(inner, "volume"@) {
            Err(message) => Err(message),
            Ok(volume) => match number_field(inner, "file"@) {
                Err(message) => Err(message),
                Ok(file) => Ok(Some(FileIdentity { volume, file })),
            },
        },
        _ => Err("identity must be a table"@),
    }
}

/// The time of change in a table, if it is there. Nanoseconds of a second and
/// more are carried over to the seconds.
pub open spec fn time_of(table: Entries) -> Result<Option<FileTime>, Seq<char>> {
    match optional_i64_field(table, "mtime_sec"@) {
        Err(message) => Err(message),
        Ok(None) => Ok(None),
        Ok(Some(sec)) => match optional_i64_field(table, "mtime_nanos"@) {
            Err(message) => Err(message),
            Ok(found) => {
                let nanos = match found {
                    Some(nanos) => nanos,
                    None => 0,
                };
                if sec < 0 {
                    Err("Negative mtime seconds are not supported"@)
                } else if nanos < 0 || nanos > u32::MAX {
                    Err("mtime nanos is outside the u32 range"@)
                } else if sec + nanos as int / 1_000_000_000 > i64::MAX {
                    Err("mtime is out of range"@)
                } else {
                    Ok(
                        Some(
                            FileTime {
                                secs: (sec + nanos as int / 1_000_000_000) as i64,
                                nanos: (nanos as int % 1_000_000_000) as u32,
                            },
                        ),
                    )
                }
            },
        },
    }
}

/// The fingerprint that a table holds.
pub open spec fn fingerprint_of(table: Entries) -> Result<FingerprintView, Seq<char>> {
    match kind_field(table) {
        Err(message) => Err(message),
        Ok(kind) => match optional_u64_field(table, "size"@) {
            Err(message) => Err(message),
            Ok(size) => match time_of(table) {
                Err(message) => Err(message),
                Ok(mtime) => match optional_string_field(table, "link_target"@) {
                    Err(message) => Err(message),
                    Ok(target) => Ok(
                        FingerprintView {
                            kind,
                            size,
                            mtime,
                            link_target: match target {
                                Some(text) => Some(unicode_path(text)),
                                None => None,
                            },
                        },
                    ),
                },
            },
        },
    }
}

/// The manifest entry that a value holds.
pub open spec fn manifest_entry_of(value: Toml) -> Result<ManifestEntryView, Seq<char>> {
    match value {
        Toml::Table(table) => match string_field(table, "rel_path"@) {
            Err(message) => Err(message),
            Ok(rel_path) => match kind_field(table) {
                Err(message) => Err(message),
                Ok(kind) => match optional_u64_field(table, "size"@) {
                    Err(message) => Err(message),
                    Ok(size) => match time_of(table) {
                        Err(message) => Err(message),
                        Ok(mtime) => Ok(ManifestEntryView { rel_path, kind, size, mtime }),
                    },
                },
            },
        },
        _ => Err("manifest entry must be a table"@),
    }
}

/// The manifest entries that a list of values holds: the error of the first
/// value that has one, else all entries in order.
pub open spec fn manifest_of(values: Seq<Toml>) -> Result<Seq<ManifestEntryView>, Seq<char>>
    decreases values.len(),
{
    if values.len() == 0 {
        Ok(Seq::empty())
    } else {
        match manifest_of(values.drop_last()) {
            Err(message) => Err(message),
            Ok(entries) => match manifest_entry_of(values.last()) {
                Err(message) => Err(message),
                Ok(entry) => Ok(entries.push(entry)),
            },
        }
    }
}

/// The kept entry that a table holds.
pub open spec fn backup_of(table: Entries) -> Result<BackupRefView, Seq<char>> {
    match string_field(table, "payload_rel"@) {
        Err(message) => Err(message),
        Ok(payload_rel) => match kind_field(table) {
            Err(message) => Err(message),
            Ok(kind) => Ok(BackupRefView { payload_rel, kind }),
        },
    }
}

/// The path and the kept entry of a restoring step.
pub open spec fn restore_of(table: Entries) -> Result<(FsPathView, BackupRefView), Seq<char>> {
    match string_field(table, "path"@) {
        Err(message) => Err(message),
        Ok(path) => match table_field(table, "backup"@) {
            Err(message) => Err(message),
            Ok(inner) => match backup_of(inner) {
                Err(message) => Err(message),
                Ok(backup) => Ok((unicode_path(path), backup)),
            },
        },
    }
}

/// The identity and the fingerprint that a step remembers.
pub open spec fn remembered_of(table: Entries) -> Result<
    (Option<FileIdentity>, FingerprintView),
    Seq<char>,
> {
    match identity_of(table) {
        Err(message) => Err(message),
        Ok(identity) => match table_field(table, "post"@) {
            Err(message) => Err(message),
            Ok(inner) => match fingerprint_of(inner) {
                Err(message) => Err(message),
                Ok(post) => Ok((identity, post)),
            },
        },
    }
}

/// The undo step that a value holds.
pub open spec fn step_of(value: Toml) -> Result<UndoStepView, Seq<char>> {
    match value {
        Toml::Table(table) => match string_field(table, "type"@) {
            Err(message) => Err(message),
            Ok(kind) => if kind == "remove_created"@ {
                match string_field(table, "path"@) {
                    Err(message) => Err(message),
                    Ok(path) => match remembered_of(table) {
                        Err(message) => Err(message),
                        Ok((identity, post)) => Ok(
                            UndoStepView::RemoveCreated { path: unicode_path(path), identity, post },
                        ),
                    },
                }
            } else if kind == "remove_copied"@ {
                match string_field(table, "path"@) {
                    Err(message) => Err(message),
                    Ok(path) => match remembered_of(table) {
                        Err(message) => Err(message),
                        Ok((identity, post)) => match optional_array_field(table, "manifest"@) {
                            Err(message) => Err(message),
                            Ok(None) => Ok(
                                UndoStepView::RemoveCopied {
                                    path: unicode_path(path),
                                    identity,
                                    post,
                                    manifest: None,
                                },
                            ),
                            Ok(Some(values)) => match manifest_of(values) {
                                Err(message) => Err(message),
                                Ok(entries) => Ok(
                                    UndoStepView::RemoveCopied {
                                        path: unicode_path(path),
                                        identity,
                                        post,
                                        manifest: Some(entries),
                                    },
                                ),
                            },
                        },
                    },
                }
            } else if kind == "move_back"@ {
                match string_field(table, "from"@) {
                    Err(message) => Err(message),
                    Ok(from) => match string_field(table, "to"@) {
                        Err(message) => Err(message),
                        Ok(to) => match remembered_of(table) {
                            Err(message) => Err(message),
                            Ok((identity, post)) => match bool_field(table, "case_only"@) {
                                Err(message) => Err(message),
                                Ok(case_only) => Ok(
                                    UndoStepView::MoveBack {
                                        from: unicode_path(from),
                                        to: unicode_path(to),
                                        identity,
                                        post,
                                        case_only,
                                    },
                                ),
                            },
                        },
                    },
                }
            } else if kind == "restore_deleted"@ {
                match restore_of(table) {
                    Err(message) => Err(message),
                    Ok((path, backup)) => Ok(UndoStepView::RestoreDeleted { path, backup }),
                }
            } else if kind == "restore_overwritten"@ {
                match restore_of(table) {
                    Err(message) => Err(message),
                    Ok((path, backup)) => Ok(UndoStepView::RestoreOverwritten { path, backup }),
                }
            } else {
                Err("Unknown undo step type: "@ + kind)
            },
        },
        _ => Err("Undo step must be a table"@),
    }
}

/// The undo steps that a list of values holds: the error of the first value
/// that has one, else all steps in order.
pub open spec fn steps_of(values: Seq<Toml>) -> Result<Seq<UndoStepView>, Seq<char>>
    decreases values.len(),
{
    if values.len() == 0 {
        Ok(Seq::empty())
    } else {
        match steps_of(values.drop_last()) {
            Err(message) => Err(message),
            Ok(steps) => match step_of(values.last()) {
                Err(message) => Err(message),
                Ok(step) => Ok(steps.push(step)),
            },
        }
    }
}

/// The identifier and the state that a manifest holds.
pub open spec fn manifest_state_of(table: Entries) -> Result<(Seq<char>, JournalState), Seq<char>> {
    match string_field(table, "id"@) {
        Err(message) => Err(message),
        Ok(id) => match string_field(table, "state"@) {
            Err(message) => Err(message),
            Ok(word) => match state_of(word) {
                None => Err("Unknown undo journal state: "@ + word),
                Some(state) => Ok((id, state)),
            },
        },
    }
}

/// The state and the transaction that a manifest in the directory `dir` holds.
pub open spec fn transaction_of(table: Entries, dir: FsPathView) -> Result<
    (JournalState, UndoTransactionView),
    Seq<char>,
> {
    match manifest_state_of(table) {
        Err(message) => Err(message),
        Ok((id, state)) => match string_field(table, "root"@) {
            Err(message) => Err(message),
            Ok(root) => match bool_field(table, "backup_dir"@) {
                Err(message) => Err(message),
                Ok(has_backup) => match array_field(table, "steps"@) {
                    Err(message) => Err(message),
                    Ok(values) => match steps_of(values) {
                        Err(message) => Err(message),
                        Ok(steps) => Ok(
                            (
                                state,
                                UndoTransactionView {
                                    id,
                                    root: unicode_path(root),
                                    steps,
                                    backup_dir: if has_backup {
                                        Some(dir)
                                    } else {
                                        None
                                    },
                                },
                            ),
                        ),
                    },
                },
            },
        },
    }
}

/// The keys and words of manifests differ where they have to.
proof fn lemma_words()
    ensures
        "kind"@ != "size"@,
        "kind"@ != "rel_path"@,
        "kind"@ != "mtime_sec"@,
        "kind"@ != "mtime_nanos"@,
        "kind"@ != "link_target"@,
        "kind"@ != "payload_rel"@,
        "size"@ != "mtime_sec"@,
        "size"@ != "mtime_nanos"@,
        "size"@ != "link_target"@,
        "size"@ != "rel_path"@,
        "mtime_sec"@ != "mtime_nanos"@,
        "mtime_sec"@ != "link_target"@,
        "mtime_sec"@ != "rel_path"@,
        "mtime_nanos"@ != "link_target"@,
        "mtime_nanos"@ != "rel_path"@,
        "volume"@ != "file"@,
        "file"@ != "dir"@,
        "file"@ != "symlink"@,
        "dir"@ != "symlink"@,
{
    reveal_strlit("kind");
    reveal_strlit("size");
    reveal_strlit("rel_path");
    reveal_strlit("mtime_sec");
    reveal_strlit("mtime_nanos");
    reveal_strlit("link_target");
    reveal_strlit("payload_rel");
    reveal_strlit("volume");
    reveal_strlit("file");
    reveal_strlit("dir");
    reveal_strlit("symlink");
    assert("kind"@[0] != "size"@[0]);
    assert("mtime_nanos"@[0] != "link_target"@[0]);
    assert("kind"@.len() == 4 && "size"@.len() == 4 && "rel_path"@.len() == 8);
    assert("mtime_sec"@.len() == 9 && "mtime_nanos"@.len() == 11 && "link_target"@.len() == 11);
    assert("payload_rel"@.len() == 11 && "volume"@.len() == 6 && "file"@.len() == 4);
    assert("dir"@.len() == 3 && "symlink"@.len() == 7);
}

/// The keys and words of steps differ where they have to.
proof fn lemma_step_words()
    ensures
        "type"@ != "path"@,
        "type"@ != "from"@,
        "type"@ != "to"@,
        "type"@ != "identity"@,
        "type"@ != "post"@,
        "type"@ != "manifest"@,
        "type"@ != "case_only"@,
        "type"@ != "backup"@,
        "path"@ != "identity"@,
        "path"@ != "post"@,
        "path"@ != "manifest"@,
        "path"@ != "backup"@,
        "from"@ != "to"@,
        "from"@ != "identity"@,
        "from"@ != "post"@,
        "from"@ != "case_only"@,
        "to"@ != "identity"@,
        "to"@ != "post"@,
        "to"@ != "case_only"@,
        "identity"@ != "post"@,
        "identity"@ != "manifest"@,
        "identity"@ != "case_only"@,
        "post"@ != "manifest"@,
        "post"@ != "case_only"@,
        "remove_created"@ != "remove_copied"@,
        "remove_created"@ != "move_back"@,
        "remove_created"@ != "restore_deleted"@,
        "remove_created"@ != "restore_overwritten"@,
        "remove_copied"@ != "move_back"@,
        "remove_copied"@ != "restore_deleted"@,
        "remove_copied"@ != "restore_overwritten"@,
        "move_back"@ != "restore_deleted"@,
        "move_back"@ != "restore_overwritten"@,
        "restore_deleted"@ != "restore_overwritten"@,
{
    reveal_strlit("type");
    reveal_strlit("path");
    reveal_strlit("from");
    reveal_strlit("to");
    reveal_strlit("identity");
    reveal_strlit("post");
    reveal_strlit("manifest");
    reveal_strlit("case_only");
    reveal_strlit("backup");
    reveal_strlit("remove_created");
    reveal_strlit("remove_copied");
    reveal_strlit("move_back");
    reveal_strlit("restore_deleted");
    reveal_strlit("restore_overwritten");
    assert("type"@[0] != "path"@[0] && "type"@[0] != "from"@[0] && "type"@[0] != "post"@[0]);
    assert("path"@[1] != "post"@[1]);
    assert("from"@[0] != "post"@[0]);
    assert("identity"@[0] != "manifest"@[0]);
    assert("type"@.len() == 4 && "path"@.len() == 4 && "from"@.len() == 4 && "post"@.len() == 4);
    assert("to"@.len() == 2 && "identity"@.len() == 8 && "manifest"@.len() == 8);
    assert("case_only"@.len() == 9 && "backup"@.len() == 6);
    assert("remove_created"@.len() == 14 && "remove_copied"@.len() == 13);
    assert("move_back"@.len() == 9 && "restore_deleted"@.len() == 15);
    assert("restore_overwritten"@.len() == 19);
}

/// A word for a kind of entry is read as that kind.
proof fn lemma_kind_read_back(kind: EntryKind)
    ensures
        kind_of(kind_text(kind)) == Some(kind),
{
    lemma_words();
}

/// Whether the times of a fingerprint are well formed.
pub open spec fn fingerprint_wf(fingerprint: FingerprintView) -> bool {
    fingerprint.mtime matches Some(time) ==> time.wf()
}

/// Whether the times of manifest entries are well formed.
pub open spec fn manifest_wf(entries: Seq<ManifestEntryView>) -> bool {
    forall|i: int|
        0 <= i < entries.len() ==> ((#[trigger] entries[i]).mtime matches Some(time) ==> time.wf())
}

/// Whether the times in a step are well formed.
pub open spec fn step_wf(step: UndoStepView) -> bool {
    match step {
        UndoStepView::RemoveCreated { post, .. } => fingerprint_wf(post),
        UndoStepView::RemoveCopied { post, manifest, .. } => fingerprint_wf(post) && (
        manifest matches Some(entries) ==> manifest_wf(entries)),
        UndoStepView::MoveBack { post, .. } => fingerprint_wf(post),
        _ => true,
    }
}

/// Whether the times in a transaction are well formed.
pub open spec fn transaction_wf(transaction: UndoTransactionView) -> bool {
    forall|i: int| 0 <= i < transaction.steps.len() ==> step_wf(#[trigger] transaction.steps[i])
}

/// A recorded fingerprint is read back.
proof fn lemma_fingerprint_read_back(fingerprint: FingerprintView)
    requires
        fingerprint_wf(fingerprint),
        fingerprint_entries(fingerprint) matches Ok(Some(_)),
    ensures
        fingerprint_of(fingerprint_entries(fingerprint)->Ok_0->Some_0) == Ok::<
            FingerprintView,
            Seq<char>,
        >(fingerprint),
{
    broadcast use {lemma_lookup_with_entry, lemma_lookup_no_entries};

    lemma_words();
    lemma_kind_read_back(fingerprint.kind);
    let table = fingerprint_entries(fingerprint)->Ok_0->Some_0;
    assert(kind_field(table) == Ok::<EntryKind, Seq<char>>(fingerprint.kind));
    assert(optional_u64_field(table, "size"@) == Ok::<Option<u64>, Seq<char>>(fingerprint.size));
    assert(time_of(table) == Ok::<Option<FileTime>, Seq<char>>(fingerprint.mtime));
}

/// A recorded manifest entry is read back.
proof fn lemma_manifest_entry_read_back(entry: ManifestEntryView)
    requires
        entry.mtime matches Some(time) ==> time.wf(),
        manifest_entry_entries(entry) is Ok,
    ensures
        manifest_entry_of(Toml::Table(manifest_entry_entries(entry)->Ok_0)) == Ok::<
            ManifestEntryView,
            Seq<char>,
        >(entry),
{
    broadcast use {lemma_lookup_with_entry, lemma_lookup_no_entries};

    lemma_words();
    lemma_kind_read_back(entry.kind);
    let table = manifest_entry_entries(entry)->Ok_0;
    assert(kind_field(table) == Ok::<EntryKind, Seq<char>>(entry.kind));
    assert(optional_u64_field(table, "size"@) == Ok::<Option<u64>, Seq<char>>(entry.size));
    assert(time_of(table) == Ok::<Option<FileTime>, Seq<char>>(entry.mtime));
}

/// A recorded list of manifest entries is read back.
proof fn lemma_manifest_read_back(entries: Seq<ManifestEntryView>)
    requires
        manifest_wf(entries),
        manifest_values(entries) is Ok,
    ensures
        manifest_of(manifest_values(entries)->Ok_0) == Ok::<Seq<ManifestEntryView>, Seq<char>>(
            entries,
        ),
    decreases entries.len(),
{
    if entries.len() == 0 {
        assert(entries =~= Seq::empty());
    } else {
        let shorter = entries.drop_last();
        assert(manifest_wf(shorter)) by {
            assert forall|i: int| 0 <= i < shorter.len() implies ((
            #[trigger] shorter[i]).mtime matches Some(time) ==> time.wf()) by {
                assert(shorter[i] == entries[i]);
            }
        }
        lemma_manifest_read_back(shorter);
        assert(entries.last() == entries[entries.len() - 1]);
        lemma_manifest_entry_read_back(entries.last());
        let values = manifest_values(entries)->Ok_0;
        assert(values.drop_last() =~= manifest_values(shorter)->Ok_0);
        assert(shorter.push(entries.last()) =~= entries);
    }
}

/// A recorded kept entry is read back.
proof fn lemma_backup_read_back(backup: BackupRefView)
    ensures
        backup_of(backup_entries(backup)) == Ok::<BackupRefView, Seq<char>>(backup),
{
    broadcast use {lemma_lookup_with_entry, lemma_lookup_no_entries};

    lemma_words();
    lemma_kind_read_back(backup.kind);
    let table = backup_entries(backup);
    assert(kind_field(table) == Ok::<EntryKind, Seq<char>>(backup.kind));
}

/// A recorded identity is read back from every table that holds it.
proof fn lemma_identity_read_back(table: Entries, identity: Option<FileIdentity>)
    requires
        lookup(table, "identity"@) == lookup(with_identity(no_entries(), identity), "identity"@),
    ensures
        identity_of(table) == Ok::<Option<FileIdentity>, Seq<char>>(identity),
{
    broadcast use {lemma_lookup_with_entry, lemma_lookup_no_entries};

    lemma_words();
    if let Some(identity) = identity {
        lemma_parse_decimal(identity.volume);
        lemma_parse_decimal(identity.file);
    }
}

/// A recorded step is read back.
proof fn lemma_step_read_back(step: UndoStepView)
    requires
        step_wf(step),
        step_entries(step) matches Ok(Some(_)),
    ensures
        step_of(Toml::Table(step_entries(step)->Ok_0->Some_0)) == Ok::<UndoStepView, Seq<char>>(
            step,
        ),
{
    broadcast use {lemma_lookup_with_entry, lemma_lookup_no_entries};

    lemma_step_words();
    let table = step_entries(step)->Ok_0->Some_0;
    match step {
        UndoStepView::RemoveCreated { path, identity, post } => {
            lemma_fingerprint_read_back(post);
            lemma_identity_read_back(table, identity);
            assert(string_field(table, "type"@) == Ok::<Seq<char>, Seq<char>>("remove_created"@));
            assert(unicode_path(path.text) == path);
        },
        UndoStepView::RemoveCopied { path, identity, post, manifest } => {
            lemma_fingerprint_read_back(post);
            lemma_identity_read_back(table, identity);
            if let Some(entries) = manifest {
                lemma_manifest_read_back(entries);
            }
            assert(string_field(table, "type"@) == Ok::<Seq<char>, Seq<char>>("remove_copied"@));
            assert(unicode_path(path.text) == path);
        },
        UndoStepView::MoveBack { from, to, identity, post, case_only } => {
            lemma_fingerprint_read_back(post);
            lemma_identity_read_back(table, identity);
            assert(string_field(table, "type"@) == Ok::<Seq<char>, Seq<char>>("move_back"@));
            assert(unicode_path(from.text) == from);
            assert(unicode_path(to.text) == to);
        },
        UndoStepView::RestoreDeleted { path, backup } => {
            lemma_backup_read_back(backup);
            assert(string_field(table, "type"@) == Ok::<Seq<char>, Seq<char>>("restore_deleted"@));
            assert(unicode_path(path.text) == path);
        },
        UndoStepView::RestoreOverwritten { path, backup } => {
            lemma_backup_read_back(backup);
            assert(string_field(table, "type"@) == Ok::<Seq<char>, Seq<char>>(
                "restore_overwritten"@,
            ));
            assert(unicode_path(path.text) == path);
        },
    }
}

/// A recorded list of steps is read back.
proof fn lemma_steps_read_back(steps: Seq<UndoStepView>)
    requires
        forall|i: int| 0 <= i < steps.len() ==> step_wf(#[trigger] steps[i]),
        step_values(steps) matches Ok(Some(_)),
    ensures
        steps_of(step_values(steps)->Ok_0->Some_0) == Ok::<Seq<UndoStepView>, Seq<char>>(steps),
    decreases steps.len(),
{
    if steps.len() == 0 {
        assert(steps =~= Seq::empty());
    } else {
        let shorter = steps.drop_last();
        assert forall|i: int| 0 <= i < shorter.len() implies step_wf(#[trigger] shorter[i]) by {
            assert(shorter[i] == steps[i]);
        }
        lemma_steps_read_back(shorter);
        assert(steps.last() == steps[steps.len() - 1]);
        lemma_step_read_back(steps.last());
        let values = step_values(steps)->Ok_0->Some_0;
        assert(values.drop_last() =~= step_values(shorter)->Ok_0->Some_0);
        assert(shorter.push(steps.last()) =~= steps);
    }
}

/// The keys of a manifest differ.
proof fn lemma_manifest_keys()
    ensures
        "id"@ != "state"@,
        "id"@ != "root"@,
        "id"@ != "backup_dir"@,
        "id"@ != "steps"@,
        "state"@ != "root"@,
        "state"@ != "backup_dir"@,
        "state"@ != "steps"@,
        "root"@ != "backup_dir"@,
        "root"@ != "steps"@,
        "backup_dir"@ != "steps"@,
{
    reveal_strlit("id");
    reveal_strlit("state");
    reveal_strlit("root");
    reveal_strlit("backup_dir");
    reveal_strlit("steps");
    assert("state"@[2] != "steps"@[2]);
    assert("id"@.len() == 2 && "state"@.len() == 5 && "root"@.len() == 4);
    assert("backup_dir"@.len() == 10 && "steps"@.len() == 5);
}

/// A transaction that has a manifest is read back from it: with the state that
/// was recorded, and with the manifest's own directory in the place of the
/// directory of its backups.
pub proof fn transaction_is_read_back(
    transaction: UndoTransactionView,
    state: JournalState,
    dir: FsPathView,
)
    requires
        transaction_wf(transaction),
        transaction_entries(transaction, state) matches Ok(Some(_)),
    ensures
        transaction_of(transaction_entries(transaction, state)->Ok_0->Some_0, dir) == Ok::<
            (JournalState, UndoTransactionView),
            Seq<char>,
        >(
            (
                state,
                UndoTransactionView {
                    backup_dir: if transaction.backup_dir is Some {
                        Some(dir)
                    } else {
                        None
                    },
                    ..transaction
                },
            ),
        ),
{
    broadcast use {lemma_lookup_with_entry, lemma_lookup_no_entries};

    lemma_manifest_keys();
    lemma_steps_read_back(transaction.steps);
    state_word_is_read_back(state);
    let table = transaction_entries(transaction, state)->Ok_0->Some_0;
    assert(manifest_state_of(table) == Ok::<(Seq<char>, JournalState), Seq<char>>(
        (transaction.id, state),
    ));
    assert(unicode_path(transaction.root.text) == transaction.root);
}

/// The text under a key, which must be there.
pub fn get_string<'a>(table: &'a TomlTable, key: &str) -> (r: Result<&'a String, String>)
    ensures
        match r {
            Ok(text) => string_field(table@, key@) == Ok::<Seq<char>, Seq<char>>(text@),
            Err(message) => string_field(table@, key@) == Err::<Seq<char>, Seq<char>>(message@),
        },
{
    match table.get(key) {
        Some(TomlValue::Str(text)) => Ok(text),
        _ => Err(key.to_owned().concat(" must be a string")),
    }
}

/// The text under a key, if the key is there.
fn get_optional_string<'a>(table: &'a TomlTable, key: &str) -> (r: Result<
    Option<&'a String>,
    String,
>)
    ensures
        match r {
            Ok(None) => optional_string_field(table@, key@) == Ok::<Option<Seq<char>>, Seq<char>>(
                None,
            ),
            Ok(Some(text)) => optional_string_field(table@, key@) == Ok::<
                Option<Seq<char>>,
                Seq<char>,
            >(Some(text@)),
            Err(message) => optional_string_field(table@, key@) == Err::<
                Option<Seq<char>>,
                Seq<char>,
            >(message@),
        },
{
    match table.get(key) {
        None => Ok(None),
        Some(TomlValue::Str(text)) => Ok(Some(text)),
        _ => Err(key.to_owned().concat(" must be a string")),
    }
}

/// The table under a key, which must be there.
pub fn get_table<'a>(table: &'a TomlTable, key: &str) -> (r: Result<&'a TomlTable, String>)
    ensures
        match r {
            Ok(inner) => table_field(table@, key@) == Ok::<Entries, Seq<char>>(inner@),
            Err(message) => table_field(table@, key@) == Err::<Entries, Seq<char>>(message@),
        },
{
    match table.get(key) {
        Some(TomlValue::Table(inner)) => Ok(inner),
        _ => Err(key.to_owned().concat(" must be a table")),
    }
}

/// The list under a key, which must be there.
pub fn get_array<'a>(table: &'a TomlTable, key: &str) -> (r: Result<&'a Vec<TomlValue>, String>)
    ensures
        match r {
            Ok(items) => array_field(table@, key@) == Ok::<Seq<Toml>, Seq<char>>(
                values_view(items@),
            ),
            Err(message) => array_field(table@, key@) == Err::<Seq<Toml>, Seq<char>>(message@),
        },
{
    match table.get(key) {
        Some(TomlValue::Array(items)) => {
            proof {
                lemma_array_view(*items);
            }
            Ok(items)
        },
        _ => Err(key.to_owned().concat(" must be an array")),
    }
}

/// The meaning of an array is the list of the meanings of its items.
pub proof fn lemma_array_view(items: Vec<TomlValue>)
    ensures
        TomlValue::Array(items)@ == Toml::Array(values_view(items@)),
{
    assert(TomlValue::Array(items)@->Array_0 =~= values_view(items@));
}

/// The list under a key, if the key is there.
fn get_optional_array<'a>(table: &'a TomlTable, key: &str) -> (r: Result<
    Option<&'a Vec<TomlValue>>,
    String,
>)
    ensures
        match r {
            Ok(None) => optional_array_field(table@, key@) == Ok::<Option<Seq<Toml>>, Seq<char>>(
                None,
            ),
            Ok(Some(items)) => optional_array_field(table@, key@) == Ok::<
                Option<Seq<Toml>>,
                Seq<char>,
            >(Some(values_view(items@))),
            Err(message) => optional_array_field(table@, key@) == Err::<
                Option<Seq<Toml>>,
                Seq<char>,
            >(message@),
        },
{
    match table.get(key) {
        None => Ok(None),
        Some(TomlValue::Array(items)) => {
            proof {
                lemma_array_view(*items);
            }
            Ok(Some(items))
        },
        _ => Err(key.to_owned().concat(" must be an array")),
    }
}

/// The flag under a key, which must be there.
pub fn get_bool(table: &TomlTable, key: &str) -> (r: Result<bool, String>)
    ensures
        match r {
            Ok(flag) => bool_field(table@, key@) == Ok::<bool, Seq<char>>(flag),
            Err(message) => bool_field(table@, key@) == Err::<bool, Seq<char>>(message@),
        },
{
    match table.get(key) {
        Some(TomlValue::Boolean(flag)) => Ok(*flag),
        _ => Err(key.to_owned().concat(" must be a boolean")),
    }
}

/// The integer under a key, if the key is there.
fn get_optional_i64(table: &TomlTable, key: &str) -> (r: Result<Option<i64>, String>)
    ensures
        match r {
            Ok(number) => optional_i64_field(table@, key@) == Ok::<Option<i64>, Seq<char>>(number),
            Err(message) => optional_i64_field(table@, key@) == Err::<Option<i64>, Seq<char>>(
                message@,
            ),
        },
{
    match table.get(key) {
        None => Ok(None),
        Some(TomlValue::Integer(number)) => Ok(Some(*number)),
        _ => Err(key.to_owned().concat(" must be an integer")),
    }
}

/// The integer under a key, which must not be negative, if the key is there.
fn get_optional_u64(table: &TomlTable, key: &str) -> (r: Result<Option<u64>, String>)
    ensures
        match r {
            Ok(number) => optional_u64_field(table@, key@) == Ok::<Option<u64>, Seq<char>>(number),
            Err(message) => optional_u64_field(table@, key@) == Err::<Option<u64>, Seq<char>>(
                message@,
            ),
        },
{
    match get_optional_i64(table, key) {
        Err(message) => Err(message),
        Ok(None) => Ok(None),
        Ok(Some(number)) => if number >= 0 {
            Ok(Some(number as u64))
        } else {
            Err(key.to_owned().concat(" is negative"))
        },
    }
}

/// The number written as text under a key, which must be there.
fn get_number(table: &TomlTable, key: &str) -> (r: Result<u64, String>)
    ensures
        match r {
            Ok(number) => number_field(table@, key@) == Ok::<u64, Seq<char>>(number),
            Err(message) => number_field(table@, key@) == Err::<u64, Seq<char>>(message@),
        },
{
    match get_string(table, key) {
        Err(message) => Err(message),
        Ok(text) => match parse_u64(text.as_str()) {
            Some(number) => Ok(number),
            None => Err(key.to_owned().concat(" must be a number")),
        },
    }
}

/// The kind of entry in a table.
fn get_kind(table: &TomlTable) -> (r: Result<EntryKind, String>)
    ensures
        match r {
            Ok(kind) => kind_field(table@) == Ok::<EntryKind, Seq<char>>(kind),
            Err(message) => kind_field(table@) == Err::<EntryKind, Seq<char>>(message@),
        },
{
    match get_string(table, "kind") {
        Err(message) => Err(message),
        Ok(text) => {
            if same_text(text.as_str(), "file") {
                Ok(EntryKind::File)
            } else if same_text(text.as_str(), "dir") {
                Ok(EntryKind::Dir)
            } else if same_text(text.as_str(), "symlink") {
                Ok(EntryKind::Symlink)
            } else {
                Err("Unknown entry kind: ".to_owned().concat(text.as_str()))
            }
        },
    }
}

/// The identity of a file in a table, if it is there.
fn parse_identity(table: &TomlTable) -> (r: Result<Option<FileIdentity>, String>)
    ensures
        match r {
            Ok(identity) => identity_of(table@) == Ok::<Option<FileIdentity>, Seq<char>>(identity),
            Err(message) => identity_of(table@) == Err::<Option<FileIdentity>, Seq<char>>(message@),
        },
{
    match table.get("identity") {
        None => Ok(None),
        Some(TomlValue::Table(inner)) => match get_number(inner, "volume") {
            Err(message) => Err(message),
            Ok(volume) => match get_number(inner, "file") {
                Err(message) => Err(message),
                Ok(file) => Ok(Some(FileIdentity { volume, file })),
            },
        },
        _ => Err("identity must be a table".to_owned()),
    }
}

/// The time of change in a table, if it is there.
fn parse_time(table: &TomlTable) -> (r: Result<Option<FileTime>, String>)
    ensures
        match r {
            Ok(time) => time_of(table@) == Ok::<Option<FileTime>, Seq<char>>(time),
            Err(message) => time_of(table@) == Err::<Option<FileTime>, Seq<char>>(message@),
        },
{
    let sec = match get_optional_i64(table, "mtime_sec") {
        Err(message) => {
            return Err(message);
        },
        Ok(None) => {
            return Ok(None);
        },
        Ok(Some(sec)) => sec,
    };
    let nanos: i64 = match get_optional_i64(table, "mtime_nanos") {
        Err(message) => {
            return Err(message);
        },
        Ok(None) => 0,
        Ok(Some(nanos)) => nanos,
    };
    if sec < 0 {
        return Err("Negative mtime seconds are not supported".to_owned());
    }
    if nanos < 0 || nanos > u32::MAX as i64 {
        return Err("mtime nanos is outside the u32 range".to_owned());
    }
    let whole: u32 = nanos as u32;
    let carry: u32 = whole / 1_000_000_000;
    match sec.checked_add(carry as i64) {
        None => Err("mtime is out of range".to_owned()),
        Some(secs) => Ok(Some(FileTime { secs, nanos: whole % 1_000_000_000 })),
    }
}

/// The fingerprint that a table holds.
fn parse_fingerprint(table: &TomlTable) -> (r: Result<Fingerprint, String>)
    ensures
        match r {
            Ok(fingerprint) => fingerprint_of(table@) == Ok::<FingerprintView, Seq<char>>(
                fingerprint@,
            ),
            Err(message) => fingerprint_of(table@) == Err::<FingerprintView, Seq<char>>(message@),
        },
{
    match get_kind(table) {
        Err(message) => Err(message),
        Ok(kind) => match get_optional_u64(table, "size") {
            Err(message) => Err(message),
            Ok(size) => match parse_time(table) {
                Err(message) => Err(message),
                Ok(mtime) => match get_optional_string(table, "link_target") {
                    Err(message) => Err(message),
                    Ok(None) => Ok(Fingerprint { kind, size, mtime, link_target: None }),
                    Ok(Some(text)) => Ok(
                        Fingerprint {
                            kind,
                            size,
                            mtime,
                            link_target: Some(FsPath::from_text(text.as_str())),
                        },
                    ),
                },
            },
        },
    }
}

/// The manifest entry that a value holds.
fn parse_manifest_entry(value: &TomlValue) -> (r: Result<ManifestEntry, String>)
    ensures
        match r {
            Ok(entry) => manifest_entry_of(value@) == Ok::<ManifestEntryView, Seq<char>>(entry@),
            Err(message) => manifest_entry_of(value@) == Err::<ManifestEntryView, Seq<char>>(
                message@,
            ),
        },
{
    match value {
        TomlValue::Table(table) => match get_string(table, "rel_path") {
            Err(message) => Err(message),
            Ok(rel_path) => match get_kind(table) {
                Err(message) => Err(message),
                Ok(kind) => match get_optional_u64(table, "size") {
                    Err(message) => Err(message),
                    Ok(size) => match parse_time(table) {
                        Err(message) => Err(message),
                        Ok(mtime) => Ok(
                            ManifestEntry { rel_path: rel_path.clone(), kind, size, mtime },
                        ),
                    },
                },
            },
        },
        _ => Err("manifest entry must be a table".to_owned()),
    }
}

/// An error among the first values is the error of the whole list.
proof fn lemma_manifest_of_error(values: Seq<Toml>, n: int)
    requires
        0 <= n <= values.len(),
        manifest_of(values.take(n)) is Err,
    ensures
        manifest_of(values) == manifest_of(values.take(n)),
    decreases values.len() - n,
{
    if n < values.len() {
        assert(values.take(n + 1).drop_last() =~= values.take(n));
        lemma_manifest_of_error(values, n + 1);
    } else {
        assert(values.take(n) =~= values);
    }
}

/// The manifest entries that a list of values holds.
fn parse_manifest(values: &Vec<TomlValue>) -> (r: Result<Vec<ManifestEntry>, String>)
    ensures
        match r {
            Ok(entries) => manifest_of(values_view(values@)) == Ok::<
                Seq<ManifestEntryView>,
                Seq<char>,
            >(manifest_view(entries@)),
            Err(message) => manifest_of(values_view(values@)) == Err::<
                Seq<ManifestEntryView>,
                Seq<char>,
            >(message@),
        },
{
    let ghost all = values_view(values@);
    let mut entries: Vec<ManifestEntry> = Vec::new();
    let mut i: usize = 0;
    assert(all.take(0) =~= Seq::empty());
    assert(manifest_view(entries@) =~= Seq::empty());
    while i < values.len()
        invariant
            i <= values@.len(),
            all == values_view(values@),
            manifest_of(all.take(i as int)) == Ok::<Seq<ManifestEntryView>, Seq<char>>(
                manifest_view(entries@),
            ),
        decreases values@.len() - i,
    {
        proof {
            let next = all.take(i + 1);
            assert(next.drop_last() =~= all.take(i as int));
            assert(next.last() == values@[i as int]@);
        }
        match parse_manifest_entry(&values[i]) {
            Err(message) => {
                proof {
                    lemma_manifest_of_error(all, i + 1);
                }
                return Err(message);
            },
            Ok(entry) => {
                let ghost before = manifest_view(entries@);
                entries.push(entry);
                assert(manifest_view(entries@) =~= before.push(entry@));
            },
        }
        i = i + 1;
    }
    assert(all.take(i as int) =~= all);
    Ok(entries)
}

/// The kept entry that a table holds.
fn parse_backup(table: &TomlTable) -> (r: Result<BackupRef, String>)
    ensures
        match r {
            Ok(backup) => backup_of(table@) == Ok::<BackupRefView, Seq<char>>(backup@),
            Err(message) => backup_of(table@) == Err::<BackupRefView, Seq<char>>(message@),
        },
{
    match get_string(table, "payload_rel") {
        Err(message) => Err(message),
        Ok(payload_rel) => match get_kind(table) {
            Err(message) => Err(message),
            Ok(kind) => Ok(BackupRef { payload_rel: payload_rel.clone(), kind }),
        },
    }
}

/// The path and the kept entry of a restoring step.
fn parse_restore(table: &TomlTable) -> (r: Result<(FsPath, BackupRef), String>)
    ensures
        match r {
            Ok((path, backup)) => restore_of(table@) == Ok::<
                (FsPathView, BackupRefView),
                Seq<char>,
            >((path@, backup@)),
            Err(message) => restore_of(table@) == Err::<(FsPathView, BackupRefView), Seq<char>>(
                message@,
            ),
        },
{
    match get_string(table, "path") {
        Err(message) => Err(message),
        Ok(path) => match get_table(table, "backup") {
            Err(message) => Err(message),
            Ok(inner) => match parse_backup(inner) {
                Err(message) => Err(message),
                Ok(backup) => Ok((FsPath::from_text(path.as_str()), backup)),
            },
        },
    }
}

/// The identity and the fingerprint that a step remembers.
fn parse_remembered(table: &TomlTable) -> (r: Result<(Option<FileIdentity>, Fingerprint), String>)
    ensures
        match r {
            Ok((identity, post)) => remembered_of(table@) == Ok::<
                (Option<FileIdentity>, FingerprintView),
                Seq<char>,
            >((identity, post@)),
            Err(message) => remembered_of(table@) == Err::<
                (Option<FileIdentity>, FingerprintView),
                Seq<char>,
            >(message@),
        },
{
    match parse_identity(table) {
        Err(message) => Err(message),
        Ok(identity) => match get_table(table, "post") {
            Err(message) => Err(message),
            Ok(inner) => match parse_fingerprint(inner) {
                Err(message) => Err(message),
                Ok(post) => Ok((identity, post)),
            },
        },
    }
}

/// The undo step that a value holds.
pub fn parse_step(value: &TomlValue) -> (r: Result<UndoStep, String>)
    ensures
        match r {
            Ok(step) => step_of(value@) == Ok::<UndoStepView, Seq<char>>(step@),
            Err(message) => step_of(value@) == Err::<UndoStepView, Seq<char>>(message@),
        },
{
    let table = match value {
        TomlValue::Table(table) => table,
        _ => {
            return Err("Undo step must be a table".to_owned());
        },
    };
    let kind = match get_string(table, "type") {
        Err(message) => {
            return Err(message);
        },
        Ok(kind) => kind,
    };
    if same_text(kind.as_str(), "remove_created") {
        match get_string(table, "path") {
            Err(message) => Err(message),
            Ok(path) => match parse_remembered(table) {
                Err(message) => Err(message),
                Ok((identity, post)) => Ok(
                    UndoStep::RemoveCreated {
                        path: FsPath::from_text(path.as_str()),
                        identity,
                        post,
                    },
                ),
            },
        }
    } else if same_text(kind.as_str(), "remove_copied") {
        match get_string(table, "path") {
            Err(message) => Err(message),
            Ok(path) => match parse_remembered(table) {
                Err(message) => Err(message),
                Ok((identity, post)) => match get_optional_array(table, "manifest") {
                    Err(message) => Err(message),
                    Ok(None) => Ok(
                        UndoStep::RemoveCopied {
                            path: FsPath::from_text(path.as_str()),
                            identity,
                            post,
                            manifest: None,
                        },
                    ),
                    Ok(Some(values)) => match parse_manifest(values) {
                        Err(message) => Err(message),
                        Ok(entries) => Ok(
                            UndoStep::RemoveCopied {
                                path: FsPath::from_text(path.as_str()),
                                identity,
                                post,
                                manifest: Some(entries),
                            },
                        ),
                    },
                },
            },
        }
    } else if same_text(kind.as_str(), "move_back") {
        match get_string(table, "from") {
            Err(message) => Err(message),
            Ok(from) => match get_string(table, "to") {
                Err(message) => Err(message),
                Ok(to) => match parse_remembered(table) {
                    Err(message) => Err(message),
                    Ok((identity, post)) => match get_bool(table, "case_only") {
                        Err(message) => Err(message),
                        Ok(case_only) => Ok(
                            UndoStep::MoveBack {
                                from: FsPath::from_text(from.as_str()),
                                to: FsPath::from_text(to.as_str()),
                                identity,
                                post,
                                case_only,
                            },
                        ),
                    },
                },
            },
        }
    } else if same_text(kind.as_str(), "restore_deleted") {
        match parse_restore(table) {
            Err(message) => Err(message),
            Ok((path, backup)) => Ok(UndoStep::RestoreDeleted { path, backup }),
        }
    } else if same_text(kind.as_str(), "restore_overwritten") {
        match parse_restore(table) {
            Err(message) => Err(message),
            Ok((path, backup)) => Ok(UndoStep::RestoreOverwritten { path, backup }),
        }
    } else {
        Err("Unknown undo step type: ".to_owned().concat(kind.as_str()))
    }
}

/// An error among the first values is the error of the whole list.
proof fn lemma_steps_of_error(values: Seq<Toml>, n: int)
    requires
        0 <= n <= values.len(),
        steps_of(values.take(n)) is Err,
    ensures
        steps_of(values) == steps_of(values.take(n)),
    decreases values.len() - n,
{
    if n < values.len() {
        assert(values.take(n + 1).drop_last() =~= values.take(n));
        lemma_steps_of_error(values, n + 1);
    } else {
        assert(values.take(n) =~= values);
    }
}

/// The undo steps that a list of values holds.
fn parse_steps(values: &Vec<TomlValue>) -> (r: Result<Vec<UndoStep>, String>)
    ensures
        match r {
            Ok(steps) => steps_of(values_view(values@)) == Ok::<Seq<UndoStepView>, Seq<char>>(
                steps_view(steps@),
            ),
            Err(message) => steps_of(values_view(values@)) == Err::<Seq<UndoStepView>, Seq<char>>(
                message@,
            ),
        },
{
    let ghost all = values_view(values@);
    let mut steps: Vec<UndoStep> = Vec::new();
    let mut i: usize = 0;
    assert(all.take(0) =~= Seq::empty());
    assert(steps_view(steps@) =~= Seq::empty());
    while i < values.len()
        invariant
            i <= values@.len(),
            all == values_view(values@),
            steps_of(all.take(i as int)) == Ok::<Seq<UndoStepView>, Seq<char>>(steps_view(steps@)),
        decreases values@.len() - i,
    {
        proof {
            let next = all.take(i + 1);
            assert(next.drop_last() =~= all.take(i as int));
            assert(next.last() == values@[i as int]@);
        }
        match parse_step(&values[i]) {
            Err(message) => {
                proof {
                    lemma_steps_of_error(all, i + 1);
                }
                return Err(message);
            },
            Ok(step) => {
                let ghost before = steps_view(steps@);
                steps.push(step);
                assert(steps_view(steps@) =~= before.push(step@));
            },
        }
        i = i + 1;
    }
    assert(all.take(i as int) =~= all);
    Ok(steps)
}

/// The identifier and the state that a manifest holds.
pub fn manifest_state(table: &TomlTable) -> (r: Result<(String, JournalState), String>)
    ensures
        match r {
            Ok((id, state)) => manifest_state_of(table@) == Ok::<
                (Seq<char>, JournalState),
                Seq<char>,
            >((id@, state)),
            Err(message) => manifest_state_of(table@) == Err::<
                (Seq<char>, JournalState),
                Seq<char>,
            >(message@),
        },
{
    match get_string(table, "id") {
        Err(message) => Err(message),
        Ok(id) => match get_string(table, "state") {
            Err(message) => Err(message),
            Ok(word) => match JournalState::from_str(word.as_str()) {
                Err(message) => Err(message),
                Ok(state) => Ok((id.clone(), state)),
            },
        },
    }
}

/// The state and the transaction that a manifest in the directory `dir` holds.
pub fn parse_transaction(table: &TomlTable, dir: &FsPath) -> (r: Result<
    (JournalState, UndoTransaction),
    String,
>)
    ensures
        match r {
            Ok((state, transaction)) => transaction_of(table@, dir@) == Ok::<
                (JournalState, UndoTransactionView),
                Seq<char>,
            >((state, transaction@)),
            Err(message) => transaction_of(table@, dir@) == Err::<
                (JournalState, UndoTransactionView),
                Seq<char>,
            >(message@),
        },
{
    let (id, state) = match manifest_state(table) {
        Err(message) => {
            return Err(message);
        },
        Ok(found) => found,
    };
    match get_string(table, "root") {
        Err(message) => Err(message),
        Ok(root) => match get_bool(table, "backup_dir") {
            Err(message) => Err(message),
            Ok(has_backup) => match get_array(table, "steps") {
                Err(message) => Err(message),
                Ok(values) => match parse_steps(values) {
                    Err(message) => Err(message),
                    Ok(steps) => {
                        let backup_dir = if has_backup {
                            Some(dir.copy())
                        } else {
                            None
                        };
                        Ok(
                            (
                                state,
                                UndoTransaction {
                                    id,
                                    root: FsPath::from_text(root.as_str()),
                                    steps,
                                    backup_dir,
                                },
                            ),
                        )
                    },
                },
            },
        },
    }
}

} // verus!
