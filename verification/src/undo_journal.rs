//! The journal of undo transactions.
//!
//! A transaction has a directory of its own below the journal's directory. Its
//! manifest says what was done and how far the transaction has come, so that a
//! start after a crash finds what needs a decision.

use vstd::prelude::*;

use crate::fs_path::{joined, path_text, FsPath, FsPathView, JoinedPath, JoinedPathView};
use crate::manifest_reader::{
    manifest_state, manifest_state_of, parse_transaction, string_field, transaction_of,
};
use crate::text::{decimal, decimal_text, is_digit, lemma_decimal_value, same_text};
use crate::toml_doc::{
    document, document_text, lemma_digits_short_quotes, lemma_lookup_no_entries,
    lemma_lookup_with_entry, lemma_writable_no_entries, lemma_writable_with_entry, lookup,
    no_entries, parsed, plain_key, read_toml, run_before, short_quotes, update_toml,
    updated_document, with_entry, writable, write_toml, Toml, TomlTable, TomlValue, MAX_LEVELS,
};
use crate::tree::EntryKind;
use crate::undo::{
    manifest_view, path_view, steps_view, BackupRef, BackupRefView, FileIdentity, FileTime,
    Fingerprint, FingerprintView, ManifestEntry, ManifestEntryView, UndoStep, UndoStepView,
    UndoTransaction, UndoTransactionView,
};

verus! {

/// The entries of a TOML table.
pub type Entries = Seq<(Seq<char>, Toml)>;

/// How far a transaction has come.
#[derive(Debug, Clone, Copy, PartialEq, Eq, Structural)]
pub enum JournalState {
    Preparing,
    Committed,
    Undoing,
    Undone,
}

/// The word for a state in a manifest.
pub open spec fn state_text(state: JournalState) -> Seq<char> {
    match state {
        JournalState::Preparing => "Preparing"@,
        JournalState::Committed => "Committed"@,
        JournalState::Undoing => "Undoing"@,
        JournalState::Undone => "Undone"@,
    }
}

/// The state that a word in a manifest stands for.
pub open spec fn state_of(text: Seq<char>) -> Option<JournalState> {
    if text == "Preparing"@ {
        Some(JournalState::Preparing)
    } else if text == "Committed"@ {
        Some(JournalState::Committed)
    } else if text == "Undoing"@ {
        Some(JournalState::Undoing)
    } else if text == "Undone"@ {
        Some(JournalState::Undone)
    } else {
        None
    }
}

impl JournalState {
    /// The word for this state.
    pub fn as_str(self) -> (r: &'static str)
        ensures
            r@ == state_text(self),
    {
        match self {
            JournalState::Preparing => "Preparing",
            JournalState::Committed => "Committed",
            JournalState::Undoing => "Undoing",
            JournalState::Undone => "Undone",
        }
    }

    /// The state that a word stands for.
    pub fn from_str(value: &str) -> (r: Result<JournalState, String>)
        ensures
            match r {
                Ok(state) => state_of(value@) == Some(state),
                Err(message) => state_of(value@) is None && message@
                    == "Unknown undo journal state: "@ + value@,
            },
    {
        if same_text(value, "Preparing") {
            Ok(JournalState::Preparing)
        } else if same_text(value, "Committed") {
            Ok(JournalState::Committed)
        } else if same_text(value, "Undoing") {
            Ok(JournalState::Undoing)
        } else if same_text(value, "Undone") {
            Ok(JournalState::Undone)
        } else {
            Err("Unknown undo journal state: ".to_owned().concat(value))
        }
    }
}

/// The word for each state is read as that state.
pub proof fn state_word_is_read_back(state: JournalState)
    ensures
        state_of(state_text(state)) == Some(state),
{
    reveal_strlit("Preparing");
    reveal_strlit("Committed");
    reveal_strlit("Undoing");
    reveal_strlit("Undone");
    assert("Preparing"@[0] != "Committed"@[0]);
    assert("Undoing"@.len() == 7);
    assert("Undone"@.len() == 6);
    assert("Committed"@.len() == 9);
    assert("Preparing"@.len() == 9);
}

/// The word for a kind of entry in a manifest.
pub open spec fn kind_text(kind: EntryKind) -> Seq<char> {
    match kind {
        EntryKind::File => "file"@,
        EntryKind::Dir => "dir"@,
        EntryKind::Symlink => "symlink"@,
    }
}

/// The word for a kind of entry.
fn kind_to_str(kind: EntryKind) -> (r: &'static str)
    ensures
        r@ == kind_text(kind),
{
    match kind {
        EntryKind::File => "file",
        EntryKind::Dir => "dir",
        EntryKind::Symlink => "symlink",
    }
}

/// The value of a text.
pub fn text_value(text: &str) -> (r: TomlValue)
    ensures
        r@ == Toml::Str(text@),
{
    TomlValue::Str(text.to_owned())
}

/// Why a size cannot be recorded.
pub open spec fn size_error() -> Seq<char> {
    "out of range integral type conversion attempted"@
}

/// Why a time cannot be recorded.
pub open spec fn time_error() -> Seq<char> {
    "mtime before UNIX_EPOCH cannot be recorded in the journal"@
}

/// A table with the identity of a file added, where there is one.
pub open spec fn with_identity(table: Entries, identity: Option<FileIdentity>) -> Entries {
    match identity {
        Some(identity) => with_entry(
            table,
            "identity"@,
            Toml::Table(
                with_entry(
                    with_entry(no_entries(), "volume"@, Toml::Str(decimal(identity.volume as nat))),
                    "file"@,
                    Toml::Str(decimal(identity.file as nat)),
                ),
            ),
        ),
        None => table,
    }
}

/// Adds the identity of a file, where there is one.
fn insert_identity(table: &mut TomlTable, identity: &Option<FileIdentity>)
    ensures
        final(table)@ == with_identity(old(table)@, *identity),
{
    if let Some(identity) = identity {
        let mut identity_table = TomlTable::new();
        identity_table.insert("volume", TomlValue::Str(decimal_text(identity.volume)));
        identity_table.insert("file", TomlValue::Str(decimal_text(identity.file)));
        table.insert("identity", TomlValue::Table(identity_table));
    }
}

/// A table with a size added, where there is one; refused where it exceeds the
/// integers of TOML.
pub open spec fn with_size(table: Entries, size: Option<u64>) -> Result<Entries, Seq<char>> {
    match size {
        Some(size) => if size <= i64::MAX {
            Ok(with_entry(table, "size"@, Toml::Integer(size as i64)))
        } else {
            Err(size_error())
        },
        None => Ok(table),
    }
}

/// Adds a size, where there is one.
fn insert_size(table: &mut TomlTable, size: Option<u64>) -> (r: Result<(), String>)
    ensures
        match r {
            Ok(_) => with_size(old(table)@, size) == Ok::<Entries, Seq<char>>(final(table)@),
            Err(message) => with_size(old(table)@, size) == Err::<Entries, Seq<char>>(message@),
        },
{
    if let Some(size) = size {
        if size <= i64::MAX as u64 {
            table.insert("size", TomlValue::Integer(size as i64));
        } else {
            return Err("out of range integral type conversion attempted".to_owned());
        }
    }
    Ok(())
}

/// A table with a time of change added, where there is one; refused where it
/// lies before the epoch.
pub open spec fn with_time(table: Entries, time: Option<FileTime>) -> Result<Entries, Seq<char>> {
    match time {
        Some(time) => if time.secs >= 0 {
            Ok(
                with_entry(
                    with_entry(table, "mtime_sec"@, Toml::Integer(time.secs)),
                    "mtime_nanos"@,
                    Toml::Integer(time.nanos as i64),
                ),
            )
        } else {
            Err(time_error())
        },
        None => Ok(table),
    }
}

/// Adds a time of change, where there is one.
fn insert_time(table: &mut TomlTable, time: Option<FileTime>) -> (r: Result<(), String>)
    ensures
        match r {
            Ok(_) => with_time(old(table)@, time) == Ok::<Entries, Seq<char>>(final(table)@),
            Err(message) => with_time(old(table)@, time) == Err::<Entries, Seq<char>>(message@),
        },
{
    if let Some(time) = time {
        if time.secs < 0 {
            return Err("mtime before UNIX_EPOCH cannot be recorded in the journal".to_owned());
        }
        table.insert("mtime_sec", TomlValue::Integer(time.secs));
        table.insert("mtime_nanos", TomlValue::Integer(time.nanos as i64));
    }
    Ok(())
}

/// The table of a fingerprint: `None` where a path in it is no Unicode text,
/// an error where a number in it cannot be recorded.
pub open spec fn fingerprint_entries(fingerprint: FingerprintView) -> Result<
    Option<Entries>,
    Seq<char>,
> {
    match with_size(
        with_entry(no_entries(), "kind"@, Toml::Str(kind_text(fingerprint.kind))),
        fingerprint.size,
    ) {
        Err(message) => Err(message),
        Ok(sized) => match with_time(sized, fingerprint.mtime) {
            Err(message) => Err(message),
            Ok(timed) => match fingerprint.link_target {
                None => Ok(Some(timed)),
                Some(target) => match path_text(target) {
                    None => Ok(None),
                    Some(text) => Ok(Some(with_entry(timed, "link_target"@, Toml::Str(text)))),
                },
            },
        },
    }
}

/// Whether an exec result is what a specification says.
pub open spec fn table_result(
    r: Result<Option<TomlTable>, String>,
    expected: Result<Option<Entries>, Seq<char>>,
) -> bool {
    match r {
        Ok(Some(table)) => expected == Ok::<Option<Entries>, Seq<char>>(Some(table@)),
        Ok(None) => expected == Ok::<Option<Entries>, Seq<char>>(None),
        Err(message) => expected == Err::<Option<Entries>, Seq<char>>(message@),
    }
}

/// The table of a fingerprint.
fn fingerprint_table(fingerprint: &Fingerprint) -> (r: Result<Option<TomlTable>, String>)
    ensures
        table_result(r, fingerprint_entries(fingerprint@)),
{
    let mut table = TomlTable::new();
    table.insert("kind", text_value(kind_to_str(fingerprint.kind)));
    if let Err(message) = insert_size(&mut table, fingerprint.size) {
        return Err(message);
    }
    if let Err(message) = insert_time(&mut table, fingerprint.mtime) {
        return Err(message);
    }
    if let Some(link_target) = &fingerprint.link_target {
        match link_target.to_text() {
            None => {
                return Ok(None);
            },
            Some(text) => {
                table.insert("link_target", TomlValue::Str(text));
            },
        }
    }
    Ok(Some(table))
}

/// The table of an entry below a copied directory.
pub open spec fn manifest_entry_entries(entry: ManifestEntryView) -> Result<Entries, Seq<char>> {
    match with_size(
        with_entry(
            with_entry(no_entries(), "rel_path"@, Toml::Str(entry.rel_path)),
            "kind"@,
            Toml::Str(kind_text(entry.kind)),
        ),
        entry.size,
    ) {
        Err(message) => Err(message),
        Ok(sized) => with_time(sized, entry.mtime),
    }
}

/// The table of an entry below a copied directory.
fn manifest_entry_table(entry: &ManifestEntry) -> (r: Result<TomlTable, String>)
    ensures
        match r {
            Ok(table) => manifest_entry_entries(entry@) == Ok::<Entries, Seq<char>>(table@),
            Err(message) => manifest_entry_entries(entry@) == Err::<Entries, Seq<char>>(message@),
        },
{
    let mut table = TomlTable::new();
    table.insert("rel_path", text_value(entry.rel_path.as_str()));
    table.insert("kind", text_value(kind_to_str(entry.kind)));
    if let Err(message) = insert_size(&mut table, entry.size) {
        return Err(message);
    }
    if let Err(message) = insert_time(&mut table, entry.mtime) {
        return Err(message);
    }
    Ok(table)
}

/// The table of a kept entry.
pub open spec fn backup_entries(backup: BackupRefView) -> Entries {
    with_entry(
        with_entry(no_entries(), "payload_rel"@, Toml::Str(backup.payload_rel)),
        "kind"@,
        Toml::Str(kind_text(backup.kind)),
    )
}

/// The table of a kept entry.
fn backup_table(backup: &BackupRef) -> (r: TomlTable)
    ensures
        r@ == backup_entries(backup@),
{
    let mut table = TomlTable::new();
    table.insert("payload_rel", text_value(backup.payload_rel.as_str()));
    table.insert("kind", text_value(kind_to_str(backup.kind)));
    table
}

/// The tables of a list of manifest entries: the error of the first entry that
/// has one, else all tables in order.
pub open spec fn manifest_values(entries: Seq<ManifestEntryView>) -> Result<Seq<Toml>, Seq<char>>
    decreases entries.len(),
{
    if entries.len() == 0 {
        Ok(Seq::empty())
    } else {
        match manifest_values(entries.drop_last()) {
            Err(message) => Err(message),
            Ok(values) => match manifest_entry_entries(entries.last()) {
                Err(message) => Err(message),
                Ok(table) => Ok(values.push(Toml::Table(table))),
            },
        }
    }
}

/// An error among the first entries is the error of the whole list.
proof fn lemma_manifest_error(entries: Seq<ManifestEntryView>, n: int)
    requires
        0 <= n <= entries.len(),
        manifest_values(entries.take(n)) is Err,
    ensures
        manifest_values(entries) == manifest_values(entries.take(n)),
    decreases entries.len() - n,
{
    if n < entries.len() {
        let longer = entries.take(n + 1);
        assert(longer.drop_last() =~= entries.take(n));
        lemma_manifest_error(entries, n + 1);
    } else {
        assert(entries.take(n) =~= entries);
    }
}

/// The tables of a list of manifest entries.
fn manifest_list(entries: &Vec<ManifestEntry>) -> (r: Result<Vec<TomlValue>, String>)
    ensures
        match r {
            Ok(values) => manifest_values(manifest_view(entries@)) == Ok::<Seq<Toml>, Seq<char>>(
                values_view(values@),
            ),
            Err(message) => manifest_values(manifest_view(entries@)) == Err::<Seq<Toml>, Seq<char>>(
                message@,
            ),
        },
{
    let ghost all = manifest_view(entries@);
    let mut values: Vec<TomlValue> = Vec::new();
    let mut i: usize = 0;
    assert(all.take(0) =~= Seq::empty());
    assert(values_view(values@) =~= Seq::empty());
    while i < entries.len()
        invariant
            i <= entries@.len(),
            all == manifest_view(entries@),
            manifest_values(all.take(i as int)) == Ok::<Seq<Toml>, Seq<char>>(values_view(values@)),
        decreases entries@.len() - i,
    {
        let ghost next = all.take(i + 1);
        proof {
            assert(next.drop_last() =~= all.take(i as int));
            assert(next.last() == entries@[i as int]@);
        }
        match manifest_entry_table(&entries[i]) {
            Err(message) => {
                proof {
                    lemma_manifest_error(all, i + 1);
                }
                return Err(message);
            },
            Ok(table) => {
                let ghost before = values_view(values@);
                values.push(TomlValue::Table(table));
                assert(values_view(values@) =~= before.push(Toml::Table(table@)));
            },
        }
        i = i + 1;
    }
    assert(all.take(i as int) =~= all);
    Ok(values)
}

/// The meanings of a list of values.
pub open spec fn values_view(values: Seq<TomlValue>) -> Seq<Toml> {
    values.map_values(|value: TomlValue| value@)
}

/// A list of values as one value.
fn list_value(values: Vec<TomlValue>) -> (r: TomlValue)
    ensures
        r@ == Toml::Array(values_view(values@)),
{
    let value = TomlValue::Array(values);
    assert(value@->Array_0 =~= values_view(values@));
    value
}

/// The table of an undo step: `None` where a path in it is no Unicode text, an
/// error where a number in it cannot be recorded.
pub open spec fn step_entries(step: UndoStepView) -> Result<Option<Entries>, Seq<char>> {
    match step {
        UndoStepView::RemoveCreated { path, identity, post } => match path_text(path) {
            None => Ok(None),
            Some(path) => match fingerprint_entries(post) {
                Err(message) => Err(message),
                Ok(None) => Ok(None),
                Ok(Some(post)) => Ok(
                    Some(
                        with_entry(
                            with_identity(typed_path("remove_created"@, path), identity),
                            "post"@,
                            Toml::Table(post),
                        ),
                    ),
                ),
            },
        },
        UndoStepView::RemoveCopied { path, identity, post, manifest } => match path_text(path) {
            None => Ok(None),
            Some(path) => match fingerprint_entries(post) {
                Err(message) => Err(message),
                Ok(None) => Ok(None),
                Ok(Some(post)) => {
                    let table = with_entry(
                        with_identity(typed_path("remove_copied"@, path), identity),
                        "post"@,
                        Toml::Table(post),
                    );
                    match manifest {
                        None => Ok(Some(table)),
                        Some(entries) => match manifest_values(entries) {
                            Err(message) => Err(message),
                            Ok(values) => Ok(
                                Some(with_entry(table, "manifest"@, Toml::Array(values))),
                            ),
                        },
                    }
                },
            },
        },
        UndoStepView::MoveBack { from, to, identity, post, case_only } => match (
            path_text(from),
            path_text(to),
        ) {
            (Some(from), Some(to)) => match fingerprint_entries(post) {
                Err(message) => Err(message),
                Ok(None) => Ok(None),
                Ok(Some(post)) => Ok(
                    Some(
                        with_entry(
                            with_entry(
                                with_identity(
                                    with_entry(
                                        with_entry(
                                            with_entry(
                                                no_entries(),
                                                "type"@,
                                                Toml::Str("move_back"@),
                                            ),
                                            "from"@,
                                            Toml::Str(from),
                                        ),
                                        "to"@,
                                        Toml::Str(to),
                                    ),
                                    identity,
                                ),
                                "post"@,
                                Toml::Table(post),
                            ),
                            "case_only"@,
                            Toml::Boolean(case_only),
                        ),
                    ),
                ),
            },
            _ => Ok(None),
        },
        UndoStepView::RestoreDeleted { path, backup } => match path_text(path) {
            None => Ok(None),
            Some(path) => Ok(
                Some(
                    with_entry(
                        typed_path("restore_deleted"@, path),
                        "backup"@,
                        Toml::Table(backup_entries(backup)),
                    ),
                ),
            ),
        },
        UndoStepView::RestoreOverwritten { path, backup } => match path_text(path) {
            None => Ok(None),
            Some(path) => Ok(
                Some(
                    with_entry(
                        typed_path("restore_overwritten"@, path),
                        "backup"@,
                        Toml::Table(backup_entries(backup)),
                    ),
                ),
            ),
        },
    }
}

/// The beginning of the table of a step on one path.
pub open spec fn typed_path(kind: Seq<char>, path: Seq<char>) -> Entries {
    with_entry(with_entry(no_entries(), "type"@, Toml::Str(kind)), "path"@, Toml::Str(path))
}

/// The table of an undo step.
pub fn step_table(step: &UndoStep) -> (r: Result<Option<TomlTable>, String>)
    ensures
        table_result(r, step_entries(step@)),
{
    let mut table = TomlTable::new();
    match step {
        UndoStep::RemoveCreated { path, identity, post } => {
            let path = match path.to_text() {
                Some(path) => path,
                None => {
                    return Ok(None);
                },
            };
            let post = match fingerprint_table(post) {
                Err(message) => {
                    return Err(message);
                },
                Ok(None) => {
                    return Ok(None);
                },
                Ok(Some(post)) => post,
            };
            table.insert("type", text_value("remove_created"));
            table.insert("path", TomlValue::Str(path));
            insert_identity(&mut table, identity);
            table.insert("post", TomlValue::Table(post));
        },
        UndoStep::RemoveCopied { path, identity, post, manifest } => {
            let path = match path.to_text() {
                Some(path) => path,
                None => {
                    return Ok(None);
                },
            };
            let post = match fingerprint_table(post) {
                Err(message) => {
                    return Err(message);
                },
                Ok(None) => {
                    return Ok(None);
                },
                Ok(Some(post)) => post,
            };
            table.insert("type", text_value("remove_copied"));
            table.insert("path", TomlValue::Str(path));
            insert_identity(&mut table, identity);
            table.insert("post", TomlValue::Table(post));
            if let Some(entries) = manifest {
                match manifest_list(entries) {
                    Err(message) => {
                        return Err(message);
                    },
                    Ok(values) => {
                        table.insert("manifest", list_value(values));
                    },
                }
            }
        },
        UndoStep::MoveBack { from, to, identity, post, case_only } => {
            let (from, to) = match (from.to_text(), to.to_text()) {
                (Some(from), Some(to)) => (from, to),
                _ => {
                    return Ok(None);
                },
            };
            let post = match fingerprint_table(post) {
                Err(message) => {
                    return Err(message);
                },
                Ok(None) => {
                    return Ok(None);
                },
                Ok(Some(post)) => post,
            };
            table.insert("type", text_value("move_back"));
            table.insert("from", TomlValue::Str(from));
            table.insert("to", TomlValue::Str(to));
            insert_identity(&mut table, identity);
            table.insert("post", TomlValue::Table(post));
            table.insert("case_only", TomlValue::Boolean(*case_only));
        },
        UndoStep::RestoreDeleted { path, backup } => {
            let path = match path.to_text() {
                Some(path) => path,
                None => {
                    return Ok(None);
                },
            };
            table.insert("type", text_value("restore_deleted"));
            table.insert("path", TomlValue::Str(path));
            table.insert("backup", TomlValue::Table(backup_table(backup)));
        },
        UndoStep::RestoreOverwritten { path, backup } => {
            let path = match path.to_text() {
                Some(path) => path,
                None => {
                    return Ok(None);
                },
            };
            table.insert("type", text_value("restore_overwritten"));
            table.insert("path", TomlValue::Str(path));
            table.insert("backup", TomlValue::Table(backup_table(backup)));
        },
    }
    Ok(Some(table))
}

/// The tables of a list of steps: what the first step says that has no table,
/// else all tables in order.
pub open spec fn step_values(steps: Seq<UndoStepView>) -> Result<Option<Seq<Toml>>, Seq<char>>
    decreases steps.len(),
{
    if steps.len() == 0 {
        Ok(Some(Seq::empty()))
    } else {
        match step_values(steps.drop_last()) {
            Err(message) => Err(message),
            Ok(None) => Ok(None),
            Ok(Some(values)) => match step_entries(steps.last()) {
                Err(message) => Err(message),
                Ok(None) => Ok(None),
                Ok(Some(table)) => Ok(Some(values.push(Toml::Table(table)))),
            },
        }
    }
}

/// What stops among the first steps stops the whole list.
proof fn lemma_step_stop(steps: Seq<UndoStepView>, n: int)
    requires
        0 <= n <= steps.len(),
        !(step_values(steps.take(n)) matches Ok(Some(_))),
    ensures
        step_values(steps) == step_values(steps.take(n)),
    decreases steps.len() - n,
{
    if n < steps.len() {
        let longer = steps.take(n + 1);
        assert(longer.drop_last() =~= steps.take(n));
        lemma_step_stop(steps, n + 1);
    } else {
        assert(steps.take(n) =~= steps);
    }
}

/// The manifest of a transaction in a state, with its steps as `steps`.
pub open spec fn manifest_entries(
    id: Seq<char>,
    state: JournalState,
    root: Seq<char>,
    backup_dir: bool,
    steps: Seq<Toml>,
) -> Entries {
    with_entry(
        with_entry(
            with_entry(
                with_entry(
                    with_entry(no_entries(), "id"@, Toml::Str(id)),
                    "state"@,
                    Toml::Str(state_text(state)),
                ),
                "root"@,
                Toml::Str(root),
            ),
            "backup_dir"@,
            Toml::Boolean(backup_dir),
        ),
        "steps"@,
        Toml::Array(steps),
    )
}

/// The manifest of a transaction: `None` where a path in it is no Unicode text,
/// an error where a number in it cannot be recorded.
pub open spec fn transaction_entries(
    transaction: UndoTransactionView,
    state: JournalState,
) -> Result<Option<Entries>, Seq<char>> {
    match path_text(transaction.root) {
        None => Ok(None),
        Some(root) => match step_values(transaction.steps) {
            Err(message) => Err(message),
            Ok(None) => Ok(None),
            Ok(Some(steps)) => Ok(
                Some(
                    manifest_entries(
                        transaction.id,
                        state,
                        root,
                        transaction.backup_dir is Some,
                        steps,
                    ),
                ),
            ),
        },
    }
}

/// The manifest of a transaction.
pub fn transaction_manifest_table(transaction: &UndoTransaction, state: JournalState) -> (r: Result<
    Option<TomlTable>,
    String,
>)
    ensures
        table_result(r, transaction_entries(transaction@, state)),
{
    let root = match transaction.root.to_text() {
        Some(root) => root,
        None => {
            return Ok(None);
        },
    };
    let ghost all = steps_view(transaction.steps@);
    let mut steps: Vec<TomlValue> = Vec::new();
    let mut i: usize = 0;
    assert(all.take(0) =~= Seq::empty());
    assert(values_view(steps@) =~= Seq::empty());
    while i < transaction.steps.len()
        invariant
            i <= transaction.steps@.len(),
            all == steps_view(transaction.steps@),
            path_text(transaction@.root) is Some,
            step_values(all.take(i as int)) == Ok::<Option<Seq<Toml>>, Seq<char>>(
                Some(values_view(steps@)),
            ),
        decreases transaction.steps@.len() - i,
    {
        let ghost next = all.take(i + 1);
        proof {
            assert(next.drop_last() =~= all.take(i as int));
            assert(next.last() == transaction.steps@[i as int]@);
        }
        match step_table(&transaction.steps[i]) {
            Err(message) => {
                proof {
                    lemma_step_stop(all, i + 1);
                }
                return Err(message);
            },
            Ok(None) => {
                proof {
                    lemma_step_stop(all, i + 1);
                }
                return Ok(None);
            },
            Ok(Some(table)) => {
                let ghost before = values_view(steps@);
                steps.push(TomlValue::Table(table));
                assert(values_view(steps@) =~= before.push(Toml::Table(table@)));
            },
        }
        i = i + 1;
    }
    assert(all.take(i as int) =~= all);
    let mut table = TomlTable::new();
    table.insert("id", text_value(transaction.id.as_str()));
    table.insert("state", text_value(state.as_str()));
    table.insert("root", TomlValue::Str(root));
    table.insert("backup_dir", TomlValue::Boolean(transaction.backup_dir.is_some()));
    table.insert("steps", list_value(steps));
    Ok(Some(table))
}

/// The journal: the directory that holds the directories of its transactions.
#[derive(Debug, PartialEq, Eq)]
pub struct UndoJournal {
    pub dir: FsPath,
}

/// A transaction that a start has found in the journal.
#[derive(Debug, PartialEq, Eq)]
pub struct JournalEntry {
    pub id: String,
    pub state: JournalState,
    pub dir: FsPath,
}

/// What a found transaction is.
#[verifier::ext_equal]
pub struct JournalEntryView {
    pub id: Seq<char>,
    pub state: JournalState,
    pub dir: FsPathView,
}

impl JournalEntry {
    /// What this transaction is.
    pub open spec fn view(&self) -> JournalEntryView {
        JournalEntryView { id: self.id@, state: self.state, dir: self.dir@ }
    }
}

/// A manifest to be written: the directory of its transaction and its text.
#[derive(Debug, PartialEq, Eq)]
pub struct ManifestWrite {
    pub dir: JoinedPath,
    pub text: String,
}

/// A directory that a start has found in the journal: its name, its path, and
/// its manifest where it could be read.
#[derive(Debug, PartialEq, Eq)]
pub struct ScannedTransaction {
    pub name: String,
    pub dir: FsPath,
    pub manifest: Option<String>,
}

/// What a start does with a directory of the journal.
#[derive(Debug, PartialEq, Eq)]
pub enum ScanAction {
    /// It is kept, and its transaction needs a decision.
    Keep(JournalEntry),
    /// It is removed.
    Remove(FsPath),
}

/// What a start does with a directory of the journal.
#[verifier::ext_equal]
pub enum ScanActionView {
    Keep(JournalEntryView),
    Remove(FsPathView),
}

impl ScanAction {
    pub open spec fn view(&self) -> ScanActionView {
        match self {
            ScanAction::Keep(entry) => ScanActionView::Keep(entry@),
            ScanAction::Remove(dir) => ScanActionView::Remove(dir@),
        }
    }
}

/// The identifier and the state that the text of a manifest holds, where it is
/// a manifest.
pub open spec fn manifest_text_state(source: Seq<char>) -> Option<(Seq<char>, JournalState)> {
    match parsed(source) {
        Ok(value) => match manifest_state_of(value->Table_0) {
            Ok(found) => Some(found),
            Err(_) => None,
        },
        Err(_) => None,
    }
}

/// What a start does with a directory: one that is being prepared or undone
/// needs a decision, and so does one whose manifest cannot be read; the others
/// are removed.
pub open spec fn scan_action(
    name: Seq<char>,
    dir: FsPathView,
    manifest: Option<Seq<char>>,
) -> ScanActionView {
    let found = match manifest {
        Some(source) => manifest_text_state(source),
        None => None,
    };
    match found {
        None => ScanActionView::Keep(
            JournalEntryView { id: name, state: JournalState::Preparing, dir },
        ),
        Some((id, state)) => if state == JournalState::Preparing || state == JournalState::Undoing {
            ScanActionView::Keep(JournalEntryView { id, state, dir })
        } else {
            ScanActionView::Remove(dir)
        },
    }
}

/// The text of an optional text.
pub open spec fn text_view(text: Option<String>) -> Option<Seq<char>> {
    match text {
        Some(text) => Some(text@),
        None => None,
    }
}

/// The identifier and the state that the text of a manifest holds.
pub fn read_manifest_state(source: &str) -> (r: Result<(String, JournalState), String>)
    ensures
        match r {
            Ok((id, state)) => manifest_text_state(source@) == Some((id@, state)),
            Err(message) => {
                &&& manifest_text_state(source@) is None
                &&& parsed(source@) is Err ==> message@ == "Undo manifest contains invalid TOML"@
                &&& parsed(source@) matches Ok(value) ==> manifest_state_of(value->Table_0)
                    == Err::<(Seq<char>, JournalState), Seq<char>>(message@)
            },
        },
{
    match read_toml(source) {
        Err(_) => Err("Undo manifest contains invalid TOML".to_owned()),
        Ok(table) => manifest_state(&table),
    }
}

/// The state and the transaction that the text of a manifest in the directory
/// `dir` holds.
pub fn read_transaction(source: &str, dir: &FsPath) -> (r: Result<
    (JournalState, UndoTransaction),
    String,
>)
    ensures
        match r {
            Ok((state, transaction)) => parsed(source@) matches Ok(value) && transaction_of(
                value->Table_0,
                dir@,
            ) == Ok::<(JournalState, UndoTransactionView), Seq<char>>((state, transaction@)),
            Err(message) => match parsed(source@) {
                Err(_) => message@ == "Undo manifest contains invalid TOML"@,
                Ok(value) => transaction_of(value->Table_0, dir@) == Err::<
                    (JournalState, UndoTransactionView),
                    Seq<char>,
                >(message@),
            },
        },
{
    match read_toml(source) {
        Err(_) => Err("Undo manifest contains invalid TOML".to_owned()),
        Ok(table) => parse_transaction(&table, dir),
    }
}

/// What a start does with a directory of the journal.
pub fn scan_transaction(scanned: ScannedTransaction) -> (r: ScanAction)
    ensures
        r@ == scan_action(scanned.name@, scanned.dir@, text_view(scanned.manifest)),
{
    let found = match &scanned.manifest {
        Some(source) => match read_manifest_state(source.as_str()) {
            Ok(found) => Some(found),
            Err(_) => None,
        },
        None => None,
    };
    match found {
        None => ScanAction::Keep(
            JournalEntry { id: scanned.name, state: JournalState::Preparing, dir: scanned.dir },
        ),
        Some((id, state)) => match state {
            JournalState::Preparing | JournalState::Undoing => ScanAction::Keep(
                JournalEntry { id, state, dir: scanned.dir },
            ),
            JournalState::Committed | JournalState::Undone => ScanAction::Remove(scanned.dir),
        },
    }
}

/// What a start does with the directories of the journal, each in its place.
pub open spec fn scan_actions(scanned: Seq<ScannedTransaction>) -> Seq<ScanActionView> {
    scanned.map_values(
        |one: ScannedTransaction| scan_action(one.name@, one.dir@, text_view(one.manifest)),
    )
}

/// The message where a manifest cannot be written.
pub open spec fn unwritable_error() -> Seq<char> {
    "Undo manifest cannot be written"@
}

/// The message where a path of a transaction is no Unicode text.
pub open spec fn not_unicode_error(transaction: UndoTransactionView) -> Seq<char> {
    match path_text(transaction.root) {
        None => "Root recorded in undo journal is not UTF-8: "@ + transaction.root.text,
        Some(_) => "Path is not UTF-8"@,
    }
}

/// The directory of a transaction.
pub open spec fn transaction_path(journal: UndoJournal, id: Seq<char>) -> JoinedPathView {
    joined(journal.dir@, seq![id])
}

/// The environment that decides where the journal is.
#[derive(Debug, PartialEq, Eq)]
pub struct JournalEnvironment {
    pub fyler_undo_dir: Option<FsPath>,
    pub local_app_data: Option<FsPath>,
    pub xdg_state_home: Option<FsPath>,
    pub home: Option<FsPath>,
}

/// The value of a variable, where it is set and not empty.
pub open spec fn nonempty(value: Option<FsPathView>) -> Option<FsPathView> {
    match value {
        Some(path) => if path.text.len() > 0 {
            Some(path)
        } else {
            None
        },
        None => None,
    }
}

/// The value of a variable, where it is set and not empty.
pub fn nonempty_env(value: &Option<FsPath>) -> (r: Option<FsPath>)
    ensures
        path_view(r) == nonempty(path_view(*value)),
{
    match value {
        Some(path) => if path.text.as_str().is_empty() {
            None
        } else {
            Some(path.copy())
        },
        None => None,
    }
}

/// Where the journal is: in the directory that is set for it, else below the
/// place where the platform keeps the state of applications.
pub open spec fn journal_dir(environment: JournalEnvironment, windows: bool) -> Result<
    JoinedPathView,
    Seq<char>,
> {
    match nonempty(path_view(environment.fyler_undo_dir)) {
        Some(dir) => Ok(joined(dir, Seq::empty())),
        None => if windows {
            match nonempty(path_view(environment.local_app_data)) {
                Some(dir) => Ok(joined(dir, seq!["fyler"@, "undo"@])),
                None => Err("LOCALAPPDATA is not set"@),
            }
        } else {
            match nonempty(path_view(environment.xdg_state_home)) {
                Some(dir) => Ok(joined(dir, seq!["fyler"@, "undo"@])),
                None => match nonempty(path_view(environment.home)) {
                    Some(dir) => Ok(joined(dir, seq![".local"@, "state"@, "fyler"@, "undo"@])),
                    None => Err("Neither XDG_STATE_HOME nor HOME is set"@),
                },
            }
        },
    }
}

/// Where the journal is.
pub fn undo_dir(environment: &JournalEnvironment, windows: bool) -> (r: Result<JoinedPath, String>)
    ensures
        match r {
            Ok(path) => journal_dir(*environment, windows) == Ok::<JoinedPathView, Seq<char>>(
                path@,
            ),
            Err(message) => journal_dir(*environment, windows) == Err::<
                JoinedPathView,
                Seq<char>,
            >(message@),
        },
{
    if let Some(dir) = nonempty_env(&environment.fyler_undo_dir) {
        return Ok(JoinedPath::bare(dir));
    }
    if windows {
        match nonempty_env(&environment.local_app_data) {
            Some(dir) => {
                let path = JoinedPath::bare(dir).join("fyler").join("undo");
                assert(path@.names =~= seq!["fyler"@, "undo"@]);
                Ok(path)
            },
            None => Err("LOCALAPPDATA is not set".to_owned()),
        }
    } else {
        if let Some(dir) = nonempty_env(&environment.xdg_state_home) {
            let path = JoinedPath::bare(dir).join("fyler").join("undo");
            assert(path@.names =~= seq!["fyler"@, "undo"@]);
            return Ok(path);
        }
        match nonempty_env(&environment.home) {
            Some(dir) => {
                let path = JoinedPath::bare(dir).join(".local").join("state").join("fyler").join(
                    "undo",
                );
                assert(path@.names =~= seq![".local"@, "state"@, "fyler"@, "undo"@]);
                Ok(path)
            },
            None => Err("Neither XDG_STATE_HOME nor HOME is set".to_owned()),
        }
    }
}

impl UndoJournal {
    /// The directory of a transaction.
    pub fn transaction_dir(&self, id: &str) -> (r: JoinedPath)
        ensures
            r@ == transaction_path(*self, id@),
    {
        let path = JoinedPath::bare(self.dir.copy()).join(id);
        assert(path@.names =~= seq![id@]);
        path
    }

    /// The first manifest of a transaction: it is being prepared and has no
    /// steps.
    pub fn begin(&self, id: &str, root: &FsPath) -> (r: Result<ManifestWrite, String>)
        ensures
            match r {
                Ok(write) => {
                    &&& path_text(root@) matches Some(text) && document_text(
                        manifest_entries(id@, JournalState::Preparing, text, false, Seq::empty()),
                    ) == Some(write.text@)
                    &&& write.dir@ == transaction_path(*self, id@)
                    &&& manifest_text_state(write.text@) == Some((id@, JournalState::Preparing))
                },
                Err(message) => match path_text(root@) {
                    None => message@ == "Root recorded in undo journal is not UTF-8: "@
                        + root@.text,
                    Some(text) => document_text(
                        manifest_entries(id@, JournalState::Preparing, text, false, Seq::empty()),
                    ) is None && message@ == unwritable_error(),
                },
            },
    {
        let text = match root.to_text() {
            Some(text) => text,
            None => {
                return Err(
                    "Root recorded in undo journal is not UTF-8: ".to_owned().concat(
                        root.text.as_str(),
                    ),
                );
            },
        };
        let ghost root_text = text@;
        let mut table = TomlTable::new();
        table.insert("id", text_value(id));
        table.insert("state", text_value(JournalState::Preparing.as_str()));
        table.insert("root", TomlValue::Str(text));
        table.insert("backup_dir", TomlValue::Boolean(false));
        let steps: Vec<TomlValue> = Vec::new();
        assert(values_view(steps@) =~= Seq::empty());
        table.insert("steps", list_value(steps));
        proof {
            manifest_holds_its_state(
                id@,
                JournalState::Preparing,
                root_text,
                false,
                Seq::empty(),
            );
        }
        match write_toml(table) {
            Some(text) => Ok(ManifestWrite { dir: self.transaction_dir(id), text }),
            None => Err("Undo manifest cannot be written".to_owned()),
        }
    }

    /// The manifest of a transaction that has been applied. A transaction with a path
    /// that is no Unicode text has none, and is an error.
    pub fn commit(&self, transaction: &UndoTransaction) -> (r: Result<ManifestWrite, String>)
        ensures
            match r {
                Ok(write) => {
                    &&& transaction_entries(transaction@, JournalState::Committed) matches Ok(
                        Some(table),
                    ) && document_text(table) == Some(write.text@) && parsed(write.text@)
                        == document(Toml::Table(table))
                    &&& manifest_text_state(write.text@) == Some(
                        (transaction.id@, JournalState::Committed),
                    )
                    &&& write.dir@ == transaction_path(*self, transaction.id@)
                },
                Err(message) => match transaction_entries(
                    transaction@,
                    JournalState::Committed,
                ) {
                    Err(reason) => message@ == reason,
                    Ok(Some(table)) => document_text(table) is None && message@
                        == unwritable_error(),
                    Ok(None) => message@ == not_unicode_error(transaction@),
                },
            },
    {
        match transaction_manifest_table(transaction, JournalState::Committed) {
            Err(message) => Err(message),
            Ok(None) => match transaction.root.to_text() {
                None => Err(
                    "Root recorded in undo journal is not UTF-8: ".to_owned().concat(
                        transaction.root.text.as_str(),
                    ),
                ),
                Some(_) => Err("Path is not UTF-8".to_owned()),
            },
            Ok(Some(table)) => {
                match write_toml(table) {
                    Some(text) => {
                        proof {
                            let root = path_text(transaction@.root)->Some_0;
                            let steps = step_values(transaction@.steps)->Ok_0->Some_0;
                            manifest_holds_its_state(
                                transaction.id@,
                                JournalState::Committed,
                                root,
                                transaction@.backup_dir is Some,
                                steps,
                            );
                        }
                        Ok(
                            ManifestWrite {
                                dir: self.transaction_dir(transaction.id.as_str()),
                                text,
                            },
                        )
                    },
                    None => Err("Undo manifest cannot be written".to_owned()),
                }
            },
        }
    }

    /// The manifest of a transaction, whose text so far is `source`, with
    /// another state.
    fn update_state(&self, id: &str, source: &str, state: JournalState) -> (r: Result<
        ManifestWrite,
        String,
    >)
        ensures
            self.state_updated(id@, source@, state, r),
    {
        match update_toml(source, "state", state.as_str()) {
            Err(_) => Err("Undo manifest contains invalid TOML".to_owned()),
            Ok(None) => Err("Undo manifest cannot be written".to_owned()),
            Ok(Some(text)) => Ok(ManifestWrite { dir: self.transaction_dir(id), text }),
        }
    }

    /// Whether `r` is the manifest whose text so far was `source` with the
    /// state `state`, or the reason why there is none.
    pub open spec fn state_updated(
        self,
        id: Seq<char>,
        source: Seq<char>,
        state: JournalState,
        r: Result<ManifestWrite, String>,
    ) -> bool {
        match r {
            Ok(write) => {
                &&& updated_document(source, "state"@, state_text(state)) == Ok::<
                    Option<Seq<char>>,
                    Seq<char>,
                >(Some(write.text@))
                &&& parsed(source) matches Ok(Toml::Table(table)) && {
                    let updated = Toml::Table(
                        with_entry(table, "state"@, Toml::Str(state_text(state))),
                    );
                    writable(updated, MAX_LEVELS as nat) ==> parsed(write.text@) == document(
                        updated,
                    )
                }
                &&& write.dir@ == transaction_path(self, id)
            },
            Err(message) => match updated_document(source, "state"@, state_text(state)) {
                Err(_) => message@ == "Undo manifest contains invalid TOML"@,
                Ok(None) => message@ == unwritable_error(),
                Ok(Some(_)) => false,
            },
        }
    }

    /// The manifest of a transaction, whose text so far is `source`, when its
    /// undo begins.
    pub fn mark_undoing(&self, id: &str, source: &str) -> (r: Result<ManifestWrite, String>)
        ensures
            self.state_updated(id@, source@, JournalState::Undoing, r),
    {
        self.update_state(id, source, JournalState::Undoing)
    }

    /// The manifest of a transaction, whose text so far is `source`, when its
    /// undo has ended, the payload that is then removed, and the directory that
    /// is removed last.
    pub fn finish_undone(&self, id: &str, source: &str) -> (r: Result<
        (ManifestWrite, JoinedPath, JoinedPath),
        String,
    >)
        ensures
            match r {
                Ok((write, payload, dir)) => {
                    &&& self.state_updated(id@, source@, JournalState::Undone, Ok(write))
                    &&& payload@ == joined(self.dir@, seq![id@, "payload"@])
                    &&& dir@ == transaction_path(*self, id@)
                },
                Err(message) => self.state_updated(
                    id@,
                    source@,
                    JournalState::Undone,
                    Err(message),
                ),
            },
    {
        match self.update_state(id, source, JournalState::Undone) {
            Err(message) => Err(message),
            Ok(write) => {
                let payload = self.transaction_dir(id).join("payload");
                assert(payload@.names =~= seq![id@, "payload"@]);
                Ok((write, payload, self.transaction_dir(id)))
            },
        }
    }

    /// The directory that is removed with a transaction that is given up.
    pub fn discard(&self, id: &str) -> (r: JoinedPath)
        ensures
            r@ == transaction_path(*self, id@),
    {
        self.transaction_dir(id)
    }

    /// What a start does with the directories of the journal, each in its
    /// place.
    pub fn scan_on_startup(&self, scanned: Vec<ScannedTransaction>) -> (r: Vec<ScanAction>)
        ensures
            r@.map_values(|action: ScanAction| action@) == scan_actions(scanned@),
    {
        let ghost all = scanned@;
        let mut actions: Vec<ScanAction> = Vec::new();
        for one in it: scanned
            invariant
                it.seq() == all,
                actions@.len() == it.index(),
                forall|j: int|
                    0 <= j < actions@.len() ==> (#[trigger] actions@[j])@ == scan_actions(all)[j],
        {
            actions.push(scan_transaction(one));
        }
        assert(actions@.map_values(|action: ScanAction| action@) =~= scan_actions(all));
        actions
    }
}

/// The keys of a manifest that name a transaction and its state differ from the
/// others.
proof fn lemma_state_keys()
    ensures
        "id"@ != "state"@,
        "id"@ != "root"@,
        "id"@ != "backup_dir"@,
        "id"@ != "steps"@,
        "state"@ != "root"@,
        "state"@ != "backup_dir"@,
        "state"@ != "steps"@,
{
    reveal_strlit("id");
    reveal_strlit("state");
    reveal_strlit("root");
    reveal_strlit("backup_dir");
    reveal_strlit("steps");
    assert("state"@[2] != "steps"@[2]);
    assert("id"@.len() == 2 && "state"@.len() == 5 && "root"@.len() == 4);
    assert("backup_dir"@.len() == 10 && "steps"@.len() == 5);
}

/// A manifest holds its identifier and its state.
pub proof fn manifest_holds_its_state(
    id: Seq<char>,
    state: JournalState,
    root: Seq<char>,
    backup_dir: bool,
    steps: Seq<Toml>,
)
    ensures
        manifest_state_of(manifest_entries(id, state, root, backup_dir, steps)) == Ok::<
            (Seq<char>, JournalState),
            Seq<char>,
        >((id, state)),
{
    broadcast use {lemma_lookup_with_entry, lemma_lookup_no_entries};

    lemma_state_keys();
    state_word_is_read_back(state);
}

/// Another state in a manifest leaves its identifier and everything else as it
/// was.
pub proof fn state_update_keeps_the_rest(table: Entries, state: JournalState, key: Seq<char>)
    ensures
        ({
            let updated = with_entry(table, "state"@, Toml::Str(state_text(state)));
            &&& key != "state"@ ==> lookup(updated, key) == lookup(table, key)
            &&& string_field(table, "id"@) matches Ok(id) ==> manifest_state_of(updated) == Ok::<
                (Seq<char>, JournalState),
                Seq<char>,
            >((id, state))
        }),
{
    broadcast use {lemma_lookup_with_entry, lemma_lookup_no_entries};

    lemma_state_keys();
    state_word_is_read_back(state);
}

/// A transaction that is being prepared or undone is never removed by a start,
/// and one that is committed or undone always is.
pub proof fn start_keeps_what_needs_a_decision(
    name: Seq<char>,
    dir: FsPathView,
    source: Seq<char>,
    id: Seq<char>,
    state: JournalState,
)
    requires
        manifest_text_state(source) == Some((id, state)),
    ensures
        (state == JournalState::Preparing || state == JournalState::Undoing) ==> scan_action(
            name,
            dir,
            Some(source),
        ) == ScanActionView::Keep(JournalEntryView { id, state, dir }),
        (state == JournalState::Committed || state == JournalState::Undone) ==> scan_action(
            name,
            dir,
            Some(source),
        ) == ScanActionView::Remove(dir),
{
}

/// The identifier of a transaction: the milliseconds since the epoch, the
/// number of the process and a number that rises with each transaction.
pub open spec fn transaction_id(unix_ms: u64, process: u64, sequence: u64) -> Seq<char> {
    decimal(unix_ms as nat) + "-"@ + decimal(process as nat) + "-"@ + decimal(sequence as nat)
}

/// The identifier of a transaction.
pub fn new_transaction_id(unix_ms: u64, process: u64, sequence: u64) -> (r: String)
    ensures
        r@ == transaction_id(unix_ms, process, sequence),
{
    let mut id = decimal_text(unix_ms);
    id.append("-");
    id.append(decimal_text(process).as_str());
    id.append("-");
    id.append(decimal_text(sequence).as_str());
    id
}

/// Two transactions with different numbers have different identifiers.
pub proof fn transaction_ids_differ(
    unix_ms: u64,
    process: u64,
    sequence: u64,
    other_unix_ms: u64,
    other_process: u64,
    other_sequence: u64,
)
    requires
        sequence != other_sequence,
    ensures
        transaction_id(unix_ms, process, sequence) != transaction_id(
            other_unix_ms,
            other_process,
            other_sequence,
        ),
{
    reveal_strlit("-");
    let a = transaction_id(unix_ms, process, sequence);
    let b = transaction_id(other_unix_ms, other_process, other_sequence);
    let end_a = decimal(sequence as nat);
    let end_b = decimal(other_sequence as nat);
    lemma_decimal_value(sequence as nat);
    lemma_decimal_value(other_sequence as nat);
    if a == b {
        let n = a.len() as int;
        assert(a.subrange(n - end_a.len(), n) =~= end_a);
        assert(b.subrange(n - end_b.len(), n) =~= end_b);
        if end_a.len() < end_b.len() {
            assert(a[n - end_a.len() - 1] == '-');
            assert(b[n - end_a.len() - 1] == end_b[end_b.len() - end_a.len() - 1]);
        } else if end_b.len() < end_a.len() {
            assert(b[n - end_b.len() - 1] == '-');
            assert(a[n - end_b.len() - 1] == end_a[end_a.len() - end_b.len() - 1]);
        }
    }
}

/// The number of the next transaction of a process. After the largest number the first
/// comes again.
#[derive(Debug)]
pub struct TransactionCounter {
    next: u64,
}

impl TransactionCounter {
    /// The number of the next transaction.
    pub closed spec fn view(&self) -> u64 {
        self.next
    }

    /// The counter of a process without transactions.
    pub fn new() -> (r: TransactionCounter)
        ensures
            r@ == 0,
    {
        TransactionCounter { next: 0 }
    }

    /// The identifier of the next transaction.
    pub fn next_id(&mut self, unix_ms: u64, process: u64) -> (r: String)
        ensures
            r@ == transaction_id(unix_ms, process, old(self)@),
            final(self)@ == number_after(old(self)@),
    {
        let id = new_transaction_id(unix_ms, process, self.next);
        self.next = if self.next == u64::MAX {
            0
        } else {
            self.next + 1
        };
        id
    }
}

/// The number of the transaction after one.
pub open spec fn number_after(sequence: u64) -> u64 {
    if sequence == u64::MAX {
        0
    } else {
        (sequence + 1) as u64
    }
}

/// The identifiers of the first transactions of a process, which begin at these times.
pub open spec fn ids_given(unix_ms: Seq<u64>, process: u64) -> Seq<Seq<char>>
    decreases unix_ms.len(),
{
    if unix_ms.len() == 0 {
        Seq::empty()
    } else {
        ids_given(unix_ms.drop_last(), process).push(
            transaction_id(unix_ms.last(), process, number_given(unix_ms.len() - 1)),
        )
    }
}

/// The number of a transaction before which there were `n`.
pub open spec fn number_given(n: int) -> u64
    decreases n,
{
    if n <= 0 {
        0
    } else {
        number_after(number_given(n - 1))
    }
}

/// No two transactions of a process have the same identifier, until the numbers begin
/// again.
pub proof fn ids_of_a_process_differ(unix_ms: Seq<u64>, process: u64)
    requires
        unix_ms.len() <= u64::MAX + 1,
    ensures
        ids_given(unix_ms, process).len() == unix_ms.len(),
        ids_given(unix_ms, process).no_duplicates(),
{
    lemma_ids_given(unix_ms, process);
    let ids = ids_given(unix_ms, process);
    assert forall|i: int, j: int| 0 <= i < ids.len() && 0 <= j < ids.len() && i != j implies ids[i]
        != ids[j] by {
        transaction_ids_differ(unix_ms[i], process, i as u64, unix_ms[j], process, j as u64);
    }
}

/// The numbers of transactions rise from zero.
proof fn lemma_ids_given(unix_ms: Seq<u64>, process: u64)
    requires
        unix_ms.len() <= u64::MAX + 1,
    ensures
        ids_given(unix_ms, process).len() == unix_ms.len(),
        forall|i: int|
            0 <= i < unix_ms.len() ==> #[trigger] ids_given(unix_ms, process)[i]
                == transaction_id(unix_ms[i], process, i as u64),
    decreases unix_ms.len(),
{
    if unix_ms.len() > 0 {
        lemma_ids_given(unix_ms.drop_last(), process);
        lemma_number_given(unix_ms.len() - 1);
    }
}

/// Until the numbers begin again, each is as many as there were before it.
proof fn lemma_number_given(n: int)
    requires
        0 <= n <= u64::MAX,
    ensures
        number_given(n) == n,
    decreases n,
{
    if n > 0 {
        lemma_number_given(n - 1);
    }
}

/// Whether the texts of a fingerprint hold no long rows of quotation marks.
pub open spec fn fingerprint_calm(fingerprint: FingerprintView) -> bool {
    fingerprint.link_target matches Some(path) ==> short_quotes(path.text)
}

/// Whether the texts of a step hold no long rows of quotation marks.
pub open spec fn step_calm(step: UndoStepView) -> bool {
    match step {
        UndoStepView::RemoveCreated { path, post, .. } => short_quotes(path.text)
            && fingerprint_calm(post),
        UndoStepView::RemoveCopied { path, post, manifest, .. } => short_quotes(path.text)
            && fingerprint_calm(post) && (manifest matches Some(entries) ==> forall|i: int|
            0 <= i < entries.len() ==> short_quotes((#[trigger] entries[i]).rel_path)),
        UndoStepView::MoveBack { from, to, post, .. } => short_quotes(from.text) && short_quotes(
            to.text,
        ) && fingerprint_calm(post),
        UndoStepView::RestoreDeleted { path, backup } => short_quotes(path.text) && short_quotes(
            backup.payload_rel,
        ),
        UndoStepView::RestoreOverwritten { path, backup } => short_quotes(path.text)
            && short_quotes(backup.payload_rel),
    }
}

/// Whether the texts of a transaction hold no long rows of quotation marks.
pub open spec fn transaction_calm(transaction: UndoTransactionView) -> bool {
    &&& short_quotes(transaction.id)
    &&& short_quotes(transaction.root.text)
    &&& forall|i: int|
        0 <= i < transaction.steps.len() ==> step_calm(#[trigger] transaction.steps[i])
}

/// The fixed keys and words of manifests are plain and calm.
proof fn lemma_fixed_texts()
    ensures
        plain_key("kind"@) && plain_key("size"@) && plain_key("rel_path"@) && plain_key(
            "mtime_sec"@,
        ) && plain_key("mtime_nanos"@) && plain_key("link_target"@) && plain_key("payload_rel"@)
            && plain_key("volume"@) && plain_key("file"@) && plain_key("identity"@),
        plain_key("type"@) && plain_key("path"@) && plain_key("from"@) && plain_key("to"@)
            && plain_key("post"@) && plain_key("manifest"@) && plain_key("case_only"@)
            && plain_key("backup"@),
        plain_key("id"@) && plain_key("state"@) && plain_key("root"@) && plain_key("backup_dir"@)
            && plain_key("steps"@),
        short_quotes("file"@) && short_quotes("dir"@) && short_quotes("symlink"@),
        short_quotes("remove_created"@) && short_quotes("remove_copied"@) && short_quotes(
            "move_back"@,
        ) && short_quotes("restore_deleted"@) && short_quotes("restore_overwritten"@),
        forall|state: JournalState| short_quotes(#[trigger] state_text(state)),
{
    reveal_strlit("kind");
    reveal_strlit("size");
    reveal_strlit("rel_path");
    reveal_strlit("mtime_sec");
    reveal_strlit("mtime_nanos");
    reveal_strlit("link_target");
    reveal_strlit("payload_rel");
    reveal_strlit("volume");
    reveal_strlit("file");
    reveal_strlit("identity");
    reveal_strlit("type");
    reveal_strlit("path");
    reveal_strlit("from");
    reveal_strlit("to");
    reveal_strlit("post");
    reveal_strlit("manifest");
    reveal_strlit("case_only");
    reveal_strlit("backup");
    reveal_strlit("id");
    reveal_strlit("state");
    reveal_strlit("root");
    reveal_strlit("backup_dir");
    reveal_strlit("steps");
    reveal_strlit("dir");
    reveal_strlit("symlink");
    reveal_strlit("remove_created");
    reveal_strlit("remove_copied");
    reveal_strlit("move_back");
    reveal_strlit("restore_deleted");
    reveal_strlit("restore_overwritten");
    reveal_strlit("Preparing");
    reveal_strlit("Committed");
    reveal_strlit("Undoing");
    reveal_strlit("Undone");
    lemma_short_text("file"@);
    lemma_short_text("dir"@);
    lemma_short_text("symlink"@);
    lemma_short_text("remove_created"@);
    lemma_short_text("remove_copied"@);
    lemma_short_text("move_back"@);
    lemma_short_text("restore_deleted"@);
    lemma_short_text("restore_overwritten"@);
    assert forall|state: JournalState| short_quotes(#[trigger] state_text(state)) by {
        lemma_short_text(state_text(state));
    }
}

/// A short text holds no long rows of anything.
proof fn lemma_short_text(text: Seq<char>)
    requires
        text.len() <= 255,
    ensures
        short_quotes(text),
{
    assert forall|end: int| 0 <= end <= text.len() implies #[trigger] run_before(text, end, '\'')
        <= 255 && run_before(text, end, '"') <= 255 by {
        lemma_run_bound(text, end, '\'');
        lemma_run_bound(text, end, '"');
    }
}

/// A row is no longer than the text before its end.
proof fn lemma_run_bound(text: Seq<char>, end: int, quote: char)
    requires
        0 <= end,
    ensures
        run_before(text, end, quote) <= end,
    decreases end,
{
    if end > 0 && text[end - 1] == quote {
        lemma_run_bound(text, end - 1, quote);
    }
}

/// A decimal number is calm.
proof fn lemma_decimal_calm(n: nat)
    ensures
        short_quotes(decimal(n)),
{
    lemma_decimal_value(n);
    let text = decimal(n);
    assert forall|i: int| 0 <= i < text.len() implies #[trigger] text[i] != '\'' && text[i]
        != '"' by {
        assert(is_digit(text[i]));
    }
    lemma_digits_short_quotes(text);
}

/// Adding sizes and times keeps a table that can be written.
proof fn lemma_numbers_writable(
    table: Entries,
    size: Option<u64>,
    time: Option<FileTime>,
    limit: nat,
)
    requires
        writable(Toml::Table(table), limit),
        limit >= 2,
    ensures
        with_size(table, size) matches Ok(sized) ==> writable(Toml::Table(sized), limit) && (
        with_time(sized, time) matches Ok(timed) ==> writable(Toml::Table(timed), limit)),
{
    lemma_fixed_texts();
    if let Ok(sized) = with_size(table, size) {
        if let Some(n) = size {
            lemma_writable_with_entry(table, "size"@, Toml::Integer(n as i64), limit);
        }
        if let Ok(timed) = with_time(sized, time) {
            if let Some(t) = time {
                lemma_writable_with_entry(sized, "mtime_sec"@, Toml::Integer(t.secs), limit);
                lemma_writable_with_entry(
                    with_entry(sized, "mtime_sec"@, Toml::Integer(t.secs)),
                    "mtime_nanos"@,
                    Toml::Integer(t.nanos as i64),
                    limit,
                );
            }
        }
    }
}

/// The table of a calm fingerprint can be written.
proof fn lemma_fingerprint_writable(fingerprint: FingerprintView, limit: nat)
    requires
        fingerprint_calm(fingerprint),
        limit >= 2,
    ensures
        fingerprint_entries(fingerprint) matches Ok(Some(table)) ==> writable(
            Toml::Table(table),
            limit,
        ),
{
    lemma_fixed_texts();
    lemma_writable_no_entries(limit);
    let kind = with_entry(no_entries(), "kind"@, Toml::Str(kind_text(fingerprint.kind)));
    lemma_writable_with_entry(
        no_entries(),
        "kind"@,
        Toml::Str(kind_text(fingerprint.kind)),
        limit,
    );
    lemma_numbers_writable(kind, fingerprint.size, fingerprint.mtime, limit);
    if let Ok(sized) = with_size(kind, fingerprint.size) {
        if let Ok(timed) = with_time(sized, fingerprint.mtime) {
            if let Some(target) = fingerprint.link_target {
                lemma_writable_with_entry(
                    timed,
                    "link_target"@,
                    Toml::Str(target.text),
                    limit,
                );
            }
        }
    }
}

/// The table of a calm manifest entry can be written.
proof fn lemma_manifest_entry_writable(entry: ManifestEntryView, limit: nat)
    requires
        short_quotes(entry.rel_path),
        limit >= 2,
    ensures
        manifest_entry_entries(entry) matches Ok(table) ==> writable(Toml::Table(table), limit),
{
    lemma_fixed_texts();
    lemma_writable_no_entries(limit);
    let first = with_entry(no_entries(), "rel_path"@, Toml::Str(entry.rel_path));
    lemma_writable_with_entry(no_entries(), "rel_path"@, Toml::Str(entry.rel_path), limit);
    lemma_writable_with_entry(first, "kind"@, Toml::Str(kind_text(entry.kind)), limit);
    lemma_numbers_writable(
        with_entry(first, "kind"@, Toml::Str(kind_text(entry.kind))),
        entry.size,
        entry.mtime,
        limit,
    );
}

/// The tables of calm manifest entries can be written.
proof fn lemma_manifest_writable(entries: Seq<ManifestEntryView>, limit: nat)
    requires
        forall|i: int| 0 <= i < entries.len() ==> short_quotes((#[trigger] entries[i]).rel_path),
        limit >= 2,
    ensures
        manifest_values(entries) matches Ok(values) ==> forall|i: int|
            0 <= i < values.len() ==> writable(#[trigger] values[i], limit),
    decreases entries.len(),
{
    if entries.len() > 0 {
        let shorter = entries.drop_last();
        assert forall|i: int| 0 <= i < shorter.len() implies short_quotes(
            (#[trigger] shorter[i]).rel_path,
        ) by {
            assert(shorter[i] == entries[i]);
        }
        lemma_manifest_writable(shorter, limit);
        assert(entries.last() == entries[entries.len() - 1]);
        lemma_manifest_entry_writable(entries.last(), limit);
    }
}

/// Adding an identity keeps a table that can be written.
proof fn lemma_identity_writable(table: Entries, identity: Option<FileIdentity>, limit: nat)
    requires
        writable(Toml::Table(table), limit),
        limit >= 3,
    ensures
        writable(Toml::Table(with_identity(table, identity)), limit),
{
    lemma_fixed_texts();
    if let Some(identity) = identity {
        let inner = (limit - 1) as nat;
        lemma_decimal_calm(identity.volume as nat);
        lemma_decimal_calm(identity.file as nat);
        lemma_writable_no_entries(inner);
        let volume = with_entry(
            no_entries(),
            "volume"@,
            Toml::Str(decimal(identity.volume as nat)),
        );
        lemma_writable_with_entry(
            no_entries(),
            "volume"@,
            Toml::Str(decimal(identity.volume as nat)),
            inner,
        );
        lemma_writable_with_entry(
            volume,
            "file"@,
            Toml::Str(decimal(identity.file as nat)),
            inner,
        );
        lemma_writable_with_entry(
            table,
            "identity"@,
            Toml::Table(with_entry(volume, "file"@, Toml::Str(decimal(identity.file as nat)))),
            limit,
        );
    }
}

/// The table of a calm step can be written.
proof fn lemma_step_writable(step: UndoStepView, limit: nat)
    requires
        step_calm(step),
        limit >= 4,
    ensures
        step_entries(step) matches Ok(Some(table)) ==> writable(Toml::Table(table), limit),
{
    lemma_fixed_texts();
    lemma_writable_no_entries(limit);
    let inner = (limit - 1) as nat;
    if step_entries(step) matches Ok(Some(_)) {
        match step {
            UndoStepView::RemoveCreated { path, identity, post } => {
                lemma_typed_path_writable("remove_created"@, path.text, limit);
                let table = typed_path("remove_created"@, path.text);
                lemma_identity_writable(table, identity, limit);
                lemma_fingerprint_writable(post, inner);
                lemma_writable_with_entry(
                    with_identity(table, identity),
                    "post"@,
                    Toml::Table(fingerprint_entries(post)->Ok_0->Some_0),
                    limit,
                );
            },
            UndoStepView::RemoveCopied { path, identity, post, manifest } => {
                lemma_typed_path_writable("remove_copied"@, path.text, limit);
                let table = typed_path("remove_copied"@, path.text);
                lemma_identity_writable(table, identity, limit);
                lemma_fingerprint_writable(post, inner);
                let post_value = Toml::Table(fingerprint_entries(post)->Ok_0->Some_0);
                lemma_writable_with_entry(
                    with_identity(table, identity),
                    "post"@,
                    post_value,
                    limit,
                );
                if let Some(entries) = manifest {
                    lemma_manifest_writable(entries, (inner - 1) as nat);
                    let values = manifest_values(entries)->Ok_0;
                    assert(Toml::Array(values)->Array_0 == values);
                    lemma_writable_with_entry(
                        with_entry(with_identity(table, identity), "post"@, post_value),
                        "manifest"@,
                        Toml::Array(values),
                        limit,
                    );
                }
            },
            UndoStepView::MoveBack { from, to, identity, post, case_only } => {
                let kind = with_entry(no_entries(), "type"@, Toml::Str("move_back"@));
                lemma_writable_with_entry(no_entries(), "type"@, Toml::Str("move_back"@), limit);
                lemma_writable_with_entry(kind, "from"@, Toml::Str(from.text), limit);
                let with_from = with_entry(kind, "from"@, Toml::Str(from.text));
                lemma_writable_with_entry(with_from, "to"@, Toml::Str(to.text), limit);
                let with_to = with_entry(with_from, "to"@, Toml::Str(to.text));
                lemma_identity_writable(with_to, identity, limit);
                lemma_fingerprint_writable(post, inner);
                let post_value = Toml::Table(fingerprint_entries(post)->Ok_0->Some_0);
                lemma_writable_with_entry(
                    with_identity(with_to, identity),
                    "post"@,
                    post_value,
                    limit,
                );
                lemma_writable_with_entry(
                    with_entry(with_identity(with_to, identity), "post"@, post_value),
                    "case_only"@,
                    Toml::Boolean(case_only),
                    limit,
                );
            },
            UndoStepView::RestoreDeleted { path, backup } => {
                lemma_typed_path_writable("restore_deleted"@, path.text, limit);
                lemma_backup_writable(backup, inner);
                lemma_writable_with_entry(
                    typed_path("restore_deleted"@, path.text),
                    "backup"@,
                    Toml::Table(backup_entries(backup)),
                    limit,
                );
            },
            UndoStepView::RestoreOverwritten { path, backup } => {
                lemma_typed_path_writable("restore_overwritten"@, path.text, limit);
                lemma_backup_writable(backup, inner);
                lemma_writable_with_entry(
                    typed_path("restore_overwritten"@, path.text),
                    "backup"@,
                    Toml::Table(backup_entries(backup)),
                    limit,
                );
            },
        }
    }
}

/// The beginning of the table of a calm step can be written.
proof fn lemma_typed_path_writable(kind: Seq<char>, path: Seq<char>, limit: nat)
    requires
        short_quotes(kind),
        short_quotes(path),
        limit >= 2,
    ensures
        writable(Toml::Table(typed_path(kind, path)), limit),
{
    lemma_fixed_texts();
    lemma_writable_no_entries(limit);
    lemma_writable_with_entry(no_entries(), "type"@, Toml::Str(kind), limit);
    lemma_writable_with_entry(
        with_entry(no_entries(), "type"@, Toml::Str(kind)),
        "path"@,
        Toml::Str(path),
        limit,
    );
}

/// The table of a calm kept entry can be written.
proof fn lemma_backup_writable(backup: BackupRefView, limit: nat)
    requires
        short_quotes(backup.payload_rel),
        limit >= 2,
    ensures
        writable(Toml::Table(backup_entries(backup)), limit),
{
    lemma_fixed_texts();
    lemma_writable_no_entries(limit);
    let first = with_entry(no_entries(), "payload_rel"@, Toml::Str(backup.payload_rel));
    lemma_writable_with_entry(no_entries(), "payload_rel"@, Toml::Str(backup.payload_rel), limit);
    lemma_writable_with_entry(first, "kind"@, Toml::Str(kind_text(backup.kind)), limit);
}

/// The tables of calm steps can be written.
proof fn lemma_steps_writable(steps: Seq<UndoStepView>, limit: nat)
    requires
        forall|i: int| 0 <= i < steps.len() ==> step_calm(#[trigger] steps[i]),
        limit >= 4,
    ensures
        step_values(steps) matches Ok(Some(values)) ==> forall|i: int|
            0 <= i < values.len() ==> writable(#[trigger] values[i], limit),
    decreases steps.len(),
{
    if steps.len() > 0 {
        let shorter = steps.drop_last();
        assert forall|i: int| 0 <= i < shorter.len() implies step_calm(#[trigger] shorter[i]) by {
            assert(shorter[i] == steps[i]);
        }
        lemma_steps_writable(shorter, limit);
        assert(steps.last() == steps[steps.len() - 1]);
        lemma_step_writable(steps.last(), limit);
    }
}

/// A transaction that has a manifest has one that can be written, unless its
/// texts hold long rows of quotation marks.
pub proof fn manifest_can_be_written(transaction: UndoTransactionView, state: JournalState)
    requires
        transaction_calm(transaction),
        transaction_entries(transaction, state) matches Ok(Some(_)),
    ensures
        document_text(transaction_entries(transaction, state)->Ok_0->Some_0) is Some,
{
    lemma_fixed_texts();
    let limit = MAX_LEVELS as nat;
    lemma_steps_writable(transaction.steps, (limit - 2) as nat);
    let steps = step_values(transaction.steps)->Ok_0->Some_0;
    assert(Toml::Array(steps)->Array_0 == steps);
    lemma_manifest_table_writable(
        transaction.id,
        state,
        transaction.root.text,
        transaction.backup_dir is Some,
        steps,
    );
}

/// A manifest of calm texts can be written.
pub proof fn lemma_manifest_table_writable(
    id: Seq<char>,
    state: JournalState,
    root: Seq<char>,
    backup_dir: bool,
    steps: Seq<Toml>,
)
    requires
        short_quotes(id),
        short_quotes(root),
        writable(Toml::Array(steps), (MAX_LEVELS - 1) as nat),
    ensures
        document_text(manifest_entries(id, state, root, backup_dir, steps)) is Some,
{
    lemma_fixed_texts();
    let limit = MAX_LEVELS as nat;
    lemma_writable_no_entries(limit);
    assert(short_quotes(state_text(state)));
    lemma_writable_with_entry(no_entries(), "id"@, Toml::Str(id), limit);
    let t1 = with_entry(no_entries(), "id"@, Toml::Str(id));
    lemma_writable_with_entry(t1, "state"@, Toml::Str(state_text(state)), limit);
    let t2 = with_entry(t1, "state"@, Toml::Str(state_text(state)));
    lemma_writable_with_entry(t2, "root"@, Toml::Str(root), limit);
    let t3 = with_entry(t2, "root"@, Toml::Str(root));
    lemma_writable_with_entry(t3, "backup_dir"@, Toml::Boolean(backup_dir), limit);
    let t4 = with_entry(t3, "backup_dir"@, Toml::Boolean(backup_dir));
    lemma_writable_with_entry(t4, "steps"@, Toml::Array(steps), limit);
}

} // verus!
