use fyler_app::fs_path::FsPath;
use fyler_app::nvim_locate::{
    bundled_path, nvim_filename, resolve_from, BundledEditor, EditorChoice,
};

fn bundled(display: &str, is_file: bool) -> BundledEditor {
    BundledEditor { display: display.to_owned(), is_file }
}

#[test]
fn override_is_used_without_checking_existence() {
    let resolved = resolve_from(
        Some(FsPath::from_text("/tmp/存在しない nvim.exe")),
        Some(&bundled("/tmp/nvim/bin/nvim", false)),
    );
    assert_eq!(
        resolved.path,
        EditorChoice::Override(FsPath::from_text("/tmp/存在しない nvim.exe"))
    );
    assert!(resolved
        .diagnostics
        .iter()
        .any(|line| line.contains("FYLER_NVIM_EXE") && line.contains("using")));
}

#[test]
fn bundled_nvim_is_used_when_present() {
    let resolved = resolve_from(None, Some(&bundled("/tmp/nvim/bin/nvim", true)));
    assert_eq!(resolved.path, EditorChoice::Bundled);
}

#[test]
fn path_is_used_when_bundled_nvim_is_absent() {
    let resolved = resolve_from(None, Some(&bundled("/tmp/nvim/bin/nvim", false)));
    assert_eq!(resolved.path, EditorChoice::OnPath);
}

#[test]
fn bundled_nvim_supports_spaces_and_japanese_in_exe_dir() {
    let place = bundled_path(&FsPath::from_text("/tmp/日本語 のフォルダー"), false);
    assert_eq!(place.base, FsPath::from_text("/tmp/日本語 のフォルダー"));
    assert_eq!(place.names, ["nvim", "bin", nvim_filename(false)]);
    let resolved = resolve_from(
        None,
        Some(&bundled("/tmp/日本語 のフォルダー/nvim/bin/nvim", true)),
    );
    assert_eq!(resolved.path, EditorChoice::Bundled);
}

#[test]
fn diagnostics_include_all_three_candidates() {
    let resolved = resolve_from(None, Some(&bundled("/tmp/nvim/bin/nvim", false)));
    let diagnostics = resolved.diagnostics.join("\n");
    assert!(diagnostics.contains("FYLER_NVIM_EXE"));
    assert!(diagnostics.contains("Bundled version"));
    assert!(diagnostics.contains("nvim on PATH"));
    assert!(diagnostics.contains("not set"));
    assert!(diagnostics.contains("not found"));
    assert!(diagnostics.contains("using"));
}

#[test]
fn editor_has_a_suffix_on_windows_only() {
    assert_eq!(nvim_filename(true), "nvim.exe");
    assert_eq!(nvim_filename(false), "nvim");
}
