use fyler_app::config::{
    bookmark_definition_order, config_dir, keymap_request, load, load_recent_roots, marked_paths,
    record_recent_in, Config, ConfigEnvironment, ConfigSource,
};
use fyler_app::fs_path::FsPath;
use fyler_app::options::{ConfirmDetail, SortKey, SortOrder, TerminalKind};

fn items() -> Vec<String> {
    ["mode", "path", "percent"].iter().map(|item| item.to_string()).collect()
}

fn read(source: &str) -> (Config, Vec<String>) {
    load(
        ConfigSource::Text { path: "config.toml".to_owned(), source: source.to_owned() },
        None,
        Vec::new(),
        items(),
    )
}

fn complaint(warnings: &[String], words: &str) -> bool {
    warnings.iter().any(|warning| warning.contains(words))
}

fn place(name: &str) -> String {
    if std::path::MAIN_SEPARATOR == '\\' {
        format!(r"C:\work\{name}")
    } else {
        format!("/work/{name}")
    }
}

#[test]
fn config_and_recent_files_follow_the_loading_and_persistence_contract() {
    let (default, warnings) = load(ConfigSource::Missing, None, Vec::new(), items());
    assert!(warnings.is_empty());

    let (config, warnings) = read("show_hidden = [");
    assert_eq!(config, default);
    assert_eq!(warnings.len(), 1);

    let (config, warnings) = read("show_hidden = \"yes\"");
    assert!(!config.show_hidden);
    assert!(complaint(&warnings, "show_hidden"));

    let (config, warnings) = read("sort_key = 'mtime'\nsort_reverse = 'yes'\n");
    assert_eq!(config.sort_key, SortKey::Name);
    assert!(!config.sort_reverse);
    assert!(complaint(&warnings, "sort_key"));
    assert!(complaint(&warnings, "sort_reverse"));

    let (config, warnings) = read("restore_session = false\n");
    assert!(!config.restore_session);
    assert!(warnings.is_empty(), "{warnings:?}");

    let (config, warnings) = read("restore_session = 'no'\n");
    assert!(config.restore_session);
    assert!(complaint(&warnings, "restore_session"));

    for (value, expected) in [
        ("auto", TerminalKind::Auto),
        ("windows_terminal", TerminalKind::WindowsTerminal),
        ("powershell", TerminalKind::PowerShell),
        ("cmd", TerminalKind::Cmd),
    ] {
        let (config, warnings) = read(&format!("terminal = '{value}'\n"));
        assert!(warnings.is_empty(), "{warnings:?}");
        assert_eq!(config.terminal, expected);
    }

    let (config, warnings) = read("terminal = 'wezterm'\n");
    assert_eq!(config.terminal, TerminalKind::Auto);
    assert!(complaint(&warnings, "terminal"));

    let (config, warnings) = read("terminal = 1\n");
    assert_eq!(config.terminal, TerminalKind::Auto);
    assert!(complaint(&warnings, "terminal"));

    let (config, warnings) = read("show_hidden = true\n");
    assert_eq!(config.terminal, TerminalKind::Auto);
    assert!(warnings.is_empty(), "{warnings:?}");

    let (config, warnings) = read("unknown = true");
    assert_eq!(config, default);
    assert!(complaint(&warnings, "unknown"));

    let (config, warnings) = read("leader = 'x'\n");
    assert!(warnings.is_empty(), "{warnings:?}");
    assert_eq!(config.leader, Some("x".to_owned()));

    let source = "leader = '<Space>'\n[keymap.normal]\n'<leader>f' = 'file_picker'\n'gd' = 'none'\n";
    let (config, warnings) = read(source);
    assert!(warnings.is_empty(), "{warnings:?}");
    let mut keymap = config.keymap.unwrap();
    keymap.sort();
    assert_eq!(
        keymap,
        [
            ("<leader>f".to_owned(), "file_picker".to_owned()),
            ("gd".to_owned(), "none".to_owned()),
        ]
    );
    assert_eq!(keymap_request(source).0, Some("<Space>".to_owned()));

    let (config, warnings) = load(
        ConfigSource::Text {
            path: "config.toml".to_owned(),
            source: "leader = 123\n[keymap.normal]\nx = 1\ny = 'not a real action'\n[keymap.visual]\nz = 'help'\n"
                .to_owned(),
        },
        None,
        vec!["y: not an action name: not a real action".to_owned()],
        items(),
    );
    assert_eq!(config.leader, None);
    assert!(complaint(&warnings, "leader"));
    assert!(complaint(&warnings, "must be a string"));
    assert!(complaint(&warnings, "not an action name"));
    assert!(complaint(&warnings, "unsupported"));

    let (config, warnings) = read("[bookmarks]\nrelative = 'child/path'\n");
    assert!(config.bookmarks.is_empty());
    assert!(complaint(&warnings, "not an absolute path"));

    let (config, warnings) = read("font = true\nicons = 1\nfont_y_offset_factor = 'low'\n");
    assert_eq!(config.font, None);
    assert!(complaint(&warnings, "font must be a string"));
    assert!(complaint(&warnings, "unknown configuration key: icons"));
    assert!(complaint(&warnings, "unknown configuration key: font_y_offset_factor"));

    let (config, warnings) = read("font = 'relative/font.ttf'\n");
    assert_eq!(config.font, None);
    assert!(complaint(&warnings, "not an absolute path"));

    let (config, warnings) =
        read("[statusline]\nleft = ['mode', 'path']\nright = ['percent']\n");
    assert!(warnings.is_empty(), "{warnings:?}");
    assert_eq!(config.statusline_left, Some(vec!["mode".to_owned(), "path".to_owned()]));
    assert_eq!(config.statusline_right, Some(vec!["percent".to_owned()]));

    let (config, warnings) =
        read("[statusline]\nleft = ['mode', 'bogus']\nright = 'percent'\ntop = ['mode']\n");
    assert_eq!(config.statusline_left, Some(vec!["mode".to_owned()]));
    assert_eq!(config.statusline_right, None);
    assert!(complaint(&warnings, "unknown statusline item"));
    assert!(complaint(&warnings, "must be an array"));
    assert!(complaint(&warnings, "unknown statusline key"));

    let (config, warnings) = read(&format!(
        "show_hidden = true\nsort = \"mixed\"\nconfirm_detail = \"summary\"\n\
         sort_key = \"date\"\nsort_reverse = true\n\
         font = '{}'\n\
         [bookmarks]\nzeta = '{}'\nalpha = '{}'\n",
        place("JapaneseFont.ttf"),
        place("z-first"),
        place("a-second"),
    ));
    assert!(warnings.is_empty(), "{warnings:?}");
    assert!(config.show_hidden);
    assert_eq!(config.sort, SortOrder::Mixed);
    assert_eq!(config.sort_key, SortKey::Date);
    assert!(config.sort_reverse);
    assert_eq!(config.confirm_detail, ConfirmDetail::Summary);
    assert_eq!(config.font, Some(place("JapaneseFont.ttf")));
    assert_eq!(
        config.bookmarks,
        [
            ("zeta".to_owned(), place("z-first")),
            ("alpha".to_owned(), place("a-second")),
        ]
    );

    assert!(load_recent_roots(&None).is_empty());
    let record = |source: Option<String>, root: &str| {
        Some(record_recent_in(&source, &FsPath::from_text(root)).unwrap())
    };
    let saved = record(None, &place("first"));
    let saved = record(saved, &place("second"));
    assert_eq!(load_recent_roots(&saved), [place("second"), place("first")]);

    let mut saved = record(saved, &place("first"));
    assert_eq!(load_recent_roots(&saved), [place("first"), place("second")]);

    let roots = (0..11).map(|index| place(&format!("root-{index}"))).collect::<Vec<_>>();
    for root in &roots {
        saved = record(saved, root);
    }
    let loaded = load_recent_roots(&saved);
    assert_eq!(loaded.len(), 10);
    assert_eq!(loaded[0], roots[10]);
    assert_eq!(loaded[9], roots[1]);

    let table = saved.unwrap().parse::<toml::Table>().unwrap();
    assert_eq!(table.get("roots").and_then(toml::Value::as_array).unwrap().len(), 10);
}

#[test]
fn settings_that_cannot_be_read_are_reported() {
    let (_, warnings) = load(
        ConfigSource::NoDirectory { error: "no home".to_owned() },
        None,
        Vec::new(),
        items(),
    );
    assert_eq!(warnings, ["Failed to locate configuration directory: no home"]);
    let (_, warnings) = load(
        ConfigSource::Unreadable { path: "/c.toml".to_owned(), error: "denied".to_owned() },
        None,
        Vec::new(),
        items(),
    );
    assert_eq!(warnings, ["Failed to read /c.toml: denied"]);
}

#[test]
fn bookmarks_keep_the_order_of_their_definition() {
    assert_eq!(
        bookmark_definition_order("[bookmarks]\nzeta = '/z'\nalpha = '/a'\n"),
        ["zeta", "alpha"]
    );
}

#[test]
fn directory_for_settings_follows_the_environment() {
    let path = |text: &str| Some(FsPath::from_text(text));
    let environment = ConfigEnvironment {
        fyler_config_dir: path("/own"),
        app_data: path("/app"),
        xdg_config_home: path("/xdg"),
        home: path("/home"),
    };
    assert_eq!(config_dir(&environment, false).unwrap().base, FsPath::from_text("/own"));
    let unset = ConfigEnvironment { fyler_config_dir: None, ..environment };
    assert_eq!(config_dir(&unset, true).unwrap().base, FsPath::from_text("/app"));
    assert_eq!(config_dir(&unset, false).unwrap().base, FsPath::from_text("/xdg"));
    let home = ConfigEnvironment { xdg_config_home: None, ..unset };
    assert_eq!(config_dir(&home, false).unwrap().base, FsPath::from_text("/home"));
    let nothing = ConfigEnvironment { home: None, app_data: None, ..home };
    assert!(config_dir(&nothing, false).is_err());
    assert!(config_dir(&nothing, true).is_err());
}

#[test]
fn marked_paths_keep_their_order() {
    let paths: Vec<String> = ["/b", "a", "/a", "/b"].iter().map(|path| path.to_string()).collect();
    assert_eq!(marked_paths(&paths, &vec![true, false, true, true]), ["/b", "/a", "/b"]);
    assert!(marked_paths(&paths, &vec![false; 4]).is_empty());
}

fn names(source: &str) -> Vec<String> {
    read(source).0.bookmarks.into_iter().map(|bookmark| bookmark.0).collect()
}

#[test]
fn bookmarks_keep_their_order_in_every_form() {
    let (z, a, m) = (place("z"), place("a"), place("m"));
    for source in [
        format!("[bookmarks] # dirs\nzeta = '{z}'\nalpha = '{a}'\nmid = '{m}'\n"),
        format!("[ bookmarks ]\r\nzeta = '{z}'\r\nalpha = '{a}'\r\nmid = '{m}'"),
        format!("[\"bookmarks\"]\n# zeta\n\"zeta\" = '{z}' # first\n\nalpha = '{a}'\nmid = '{m}'\n"),
        format!("bookmarks.zeta = '{z}'\nshow_hidden = true\nbookmarks.alpha = '{a}'\nbookmarks.mid = '{m}'\n"),
        format!("bookmarks = {{ zeta = '{z}', alpha = '{a}', mid = '{m}' }}\n"),
        format!("bookmarks = {{ zeta = '{z}', alpha = \"\"\"\\\n    {}\"\"\", mid = '{m}' }}", a.replace('\\', "\\\\")),
        format!("font = \"\"\"\n[bookmarks]\nalpha = 1\n\"\"\"\n[bookmarks]\nzeta = '{z}'\nalpha = '{a}'\nmid = '{m}'\n"),
    ] {
        assert_eq!(names(&source), ["zeta", "alpha", "mid"], "{source}");
    }
}

#[test]
fn relative_paths_are_not_taken() {
    let (config, warnings) = read("font = 'sub/font.ttf'\n[bookmarks]\nup = '..'\nhere = ''\n");
    assert_eq!(config.font, None);
    assert!(config.bookmarks.is_empty());
    assert_eq!(warnings.len(), 3);
}

#[test]
fn bad_setting_leaves_the_others() {
    let rest = "show_hidden = true\nsort = 'mixed'\nunknown = 1\n";
    let (expected, fewer) = read(rest);
    for (key, line) in [
        ("sort_key", "sort_key = 'colour'\n"),
        ("sort_reverse", "sort_reverse = 1\n"),
        ("restore_session", "restore_session = 'no'\n"),
        ("terminal", "terminal = 'xterm'\n"),
        ("feedback_url", "feedback_url = 1\n"),
        ("confirm_detail", "confirm_detail = []\n"),
        ("font", "font = 'relative.ttf'\n"),
        ("leader", "leader = 1\n"),
    ] {
        let (config, mut warnings) = read(&format!("{line}{rest}"));
        assert_eq!(config, expected, "{line}");
        assert_eq!(warnings.len(), fewer.len() + 1, "{line}");
        warnings.retain(|warning| !fewer.contains(warning));
        assert!(warnings[0].contains(key), "{line}");
    }
}

#[test]
fn recorded_list_is_loaded_whole() {
    let mut source = None;
    for name in ["a", "b", "c", "b"] {
        source = Some(record_recent_in(&source, &FsPath::from_text(&place(name))).unwrap());
    }
    assert_eq!(load_recent_roots(&source), [place("b"), place("c"), place("a")]);
}

#[test]
fn recorded_root_stands_first_and_once() {
    let first = record_recent_in(&None, &FsPath::from_text(&place("first"))).unwrap();
    let second = record_recent_in(&Some(first), &FsPath::from_text(&place("second"))).unwrap();
    let again = record_recent_in(&Some(second), &FsPath::from_text(&place("first"))).unwrap();
    assert_eq!(load_recent_roots(&Some(again)), [place("first"), place("second")]);
    let doubled = format!("roots = ['{0}', '{1}', '{0}', 'relative', '{1}']", place("a"), place("b"));
    assert_eq!(load_recent_roots(&Some(doubled)), [place("a"), place("b")]);
}
