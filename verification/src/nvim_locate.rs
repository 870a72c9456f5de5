//! Which editor is started, and what a user is told about the search for it.

use vstd::prelude::*;

use crate::fs_path::{joined, FsPath, FsPathView, JoinedPath, JoinedPathView};
use crate::text::texts;

verus! {

/// The editor that is shipped along.
#[derive(Debug, PartialEq, Eq)]
pub struct BundledEditor {
    /// Its path, as it is displayed.
    pub display: String,
    /// Whether there is a file.
    pub is_file: bool,
}

/// Which editor is started.
#[derive(Debug, PartialEq, Eq)]
pub enum EditorChoice {
    /// The one that was asked for.
    Override(FsPath),
    /// The one that is shipped along.
    Bundled,
    /// The one that the system finds.
    OnPath,
}

/// Which editor is started.
#[verifier::ext_equal]
pub enum EditorChoiceView {
    Override(FsPathView),
    Bundled,
    OnPath,
}

impl EditorChoice {
    pub open spec fn view(&self) -> EditorChoiceView {
        match self {
            EditorChoice::Override(path) => EditorChoiceView::Override(path@),
            EditorChoice::Bundled => EditorChoiceView::Bundled,
            EditorChoice::OnPath => EditorChoiceView::OnPath,
        }
    }
}

/// Which editor is started, and how it was found.
#[derive(Debug, PartialEq, Eq)]
pub struct ResolvedNvim {
    pub path: EditorChoice,
    pub diagnostics: Vec<String>,
}

/// The name of the editor's file.
pub open spec fn editor_file(windows: bool) -> Seq<char> {
    if windows {
        "nvim.exe"@
    } else {
        "nvim"@
    }
}

/// The name of the editor's file.
pub fn nvim_filename(windows: bool) -> (r: &'static str)
    ensures
        r@ == editor_file(windows),
{
    if windows {
        "nvim.exe"
    } else {
        "nvim"
    }
}

/// Where the editor that is shipped along would stand.
pub open spec fn bundled_place(exe_dir: FsPathView, windows: bool) -> JoinedPathView {
    joined(exe_dir, seq!["nvim"@, "bin"@, editor_file(windows)])
}

/// Where the editor that is shipped along would stand.
pub fn bundled_path(exe_dir: &FsPath, windows: bool) -> (r: JoinedPath)
    ensures
        r@ == bundled_place(exe_dir@, windows),
{
    let path = JoinedPath::bare(exe_dir.copy()).join("nvim").join("bin").join(
        nvim_filename(windows),
    );
    assert(path@.names =~= seq!["nvim"@, "bin"@, editor_file(windows)]);
    path
}

/// What is said of the editor that is shipped along.
pub open spec fn bundled_line(bundled: Option<(Seq<char>, bool)>, checked: bool) -> Seq<char> {
    match bundled {
        Some((display, is_file)) => "Bundled version "@ + display + (if !checked {
            ": not searched"@
        } else if is_file {
            ": using"@
        } else {
            ": not found"@
        }),
        None =>
            "Bundled version: not searched because the fyler executable location is unavailable"@,
    }
}

/// What the editor that is shipped along is.
pub open spec fn bundled_view(bundled: Option<&BundledEditor>) -> Option<(Seq<char>, bool)> {
    match bundled {
        Some(bundled) => Some((bundled.display@, bundled.is_file)),
        None => None,
    }
}

/// What is said of the editor that is shipped along.
fn bundled_status(bundled: Option<&BundledEditor>, checked: bool) -> (r: String)
    ensures
        r@ == bundled_line(bundled_view(bundled), checked),
{
    match bundled {
        Some(bundled) => {
            let line = "Bundled version ".to_owned().concat(bundled.display.as_str());
            if !checked {
                line.concat(": not searched")
            } else if bundled.is_file {
                line.concat(": using")
            } else {
                line.concat(": not found")
            }
        },
        None =>
            "Bundled version: not searched because the fyler executable location is unavailable".to_owned(),
    }
}

/// Which editor is started: the one that was asked for, else the one that is
/// shipped along, else the one that the system finds.
pub open spec fn editor_choice(
    asked_for: Option<FsPathView>,
    bundled: Option<(Seq<char>, bool)>,
) -> EditorChoiceView {
    match asked_for {
        Some(path) => EditorChoiceView::Override(path),
        None => if bundled matches Some(found) && found.1 {
            EditorChoiceView::Bundled
        } else {
            EditorChoiceView::OnPath
        },
    }
}

/// What a user is told about the search.
pub open spec fn search_lines(
    asked_for: Option<FsPathView>,
    bundled: Option<(Seq<char>, bool)>,
) -> Seq<Seq<char>> {
    match editor_choice(asked_for, bundled) {
        EditorChoiceView::Override(path) => seq![
            "FYLER_NVIM_EXE: using ("@ + path.text + ")"@,
            bundled_line(bundled, false),
            "nvim on PATH: not searched"@,
        ],
        EditorChoiceView::Bundled => seq![
            "FYLER_NVIM_EXE: not set"@,
            bundled_line(bundled, true),
            "nvim on PATH: not searched"@,
        ],
        EditorChoiceView::OnPath => seq![
            "FYLER_NVIM_EXE: not set"@,
            bundled_line(bundled, true),
            "nvim on PATH: using"@,
        ],
    }
}

/// Which editor is started, and what a user is told about the search.
pub fn resolve_from(override_exe: Option<FsPath>, bundled: Option<&BundledEditor>) -> (r:
    ResolvedNvim)
    ensures
        r.path@ == editor_choice(crate::undo::path_view(override_exe), bundled_view(bundled)),
        texts(r.diagnostics@) == search_lines(
            crate::undo::path_view(override_exe),
            bundled_view(bundled),
        ),
{
    let ghost asked_for = crate::undo::path_view(override_exe);
    let mut diagnostics: Vec<String> = Vec::new();
    if let Some(path) = override_exe {
        diagnostics.push(
            "FYLER_NVIM_EXE: using (".to_owned().concat(path.text.as_str()).concat(")"),
        );
        diagnostics.push(bundled_status(bundled, false));
        diagnostics.push("nvim on PATH: not searched".to_owned());
        assert(texts(diagnostics@) =~= search_lines(asked_for, bundled_view(bundled)));
        return ResolvedNvim { path: EditorChoice::Override(path), diagnostics };
    }
    diagnostics.push("FYLER_NVIM_EXE: not set".to_owned());
    diagnostics.push(bundled_status(bundled, true));
    let found = match bundled {
        Some(bundled) => bundled.is_file,
        None => false,
    };
    if found {
        diagnostics.push("nvim on PATH: not searched".to_owned());
        assert(texts(diagnostics@) =~= search_lines(asked_for, bundled_view(bundled)));
        return ResolvedNvim { path: EditorChoice::Bundled, diagnostics };
    }
    diagnostics.push("nvim on PATH: using".to_owned());
    assert(texts(diagnostics@) =~= search_lines(asked_for, bundled_view(bundled)));
    ResolvedNvim { path: EditorChoice::OnPath, diagnostics }
}

/// Whatever is started, a user is told of all three places.
pub proof fn every_place_is_accounted_for(
    asked_for: Option<FsPathView>,
    bundled: Option<(Seq<char>, bool)>,
)
    ensures
        search_lines(asked_for, bundled).len() == 3,
        search_lines(asked_for, bundled)[1] == bundled_line(bundled, asked_for is None),
{
}

} // verus!
