use std::collections::BTreeSet;

use fyler_app::fs_path::FsPath;
use fyler_app::options::{ScanOptions, SortKey, SortOrder};
use fyler_app::pane::{retain_available_layout, PaneId, PaneLayout, SplitDirection};
use fyler_app::session::{
    encode, limit_layout, parse, recorded_window, save, validate, SessionPane,
    SessionState, WindowGeometry,
};
use fyler_app::toml_doc::{TomlTable, TomlValue};
use fyler_app::tree::TreePath;

fn value_of(value: &TomlValue) -> toml::Value {
    match value {
        TomlValue::Str(text) => toml::Value::String(text.clone()),
        TomlValue::Integer(number) => toml::Value::Integer(*number),
        TomlValue::Float(bits) => toml::Value::Float(f64::from_bits(*bits)),
        TomlValue::Boolean(flag) => toml::Value::Boolean(*flag),
        TomlValue::Datetime(text) => toml::Value::Datetime(text.parse().unwrap()),
        TomlValue::Array(values) => toml::Value::Array(values.iter().map(value_of).collect()),
        TomlValue::Table(table) => toml::Value::Table(table_of(table)),
    }
}

fn table_of(table: &TomlTable) -> toml::Table {
    table.entries.iter().map(|entry| (entry.key.clone(), value_of(&entry.value))).collect()
}

fn text_of(table: &TomlTable) -> String {
    table_of(table).to_string()
}

fn absolute_root(name: &str) -> String {
    if std::path::MAIN_SEPARATOR == '\\' {
        format!(r"C:\{name}")
    } else {
        format!("/tmp/{name}")
    }
}

fn pane(id: PaneId, root: &str) -> SessionPane {
    SessionPane {
        id,
        root: FsPath::from_text(root),
        cursor: Some(TreePath::from_components(vec!["日本語".to_owned(), "file.txt".to_owned()])),
        collapsed: vec![TreePath::parse("src/nested")],
        expanded: vec![TreePath::parse("src")],
        scan_options: ScanOptions {
            show_hidden: true,
            sort: SortOrder::Mixed,
            key: SortKey::Date,
            reverse: true,
        },
    }
}

fn split(direction: SplitDirection, ratio: f32, first: PaneLayout, second: PaneLayout) -> PaneLayout {
    PaneLayout::Split {
        direction,
        ratio: f64::from(ratio).to_bits(),
        first: Box::new(first),
        second: Box::new(second),
    }
}

fn float(number: f32) -> u64 {
    f64::from(number).to_bits()
}

fn chain(direction: SplitDirection, ids: &[PaneId]) -> PaneLayout {
    match ids {
        [id] => PaneLayout::Leaf(*id),
        [id, rest @ ..] => split(direction, 0.5, PaneLayout::Leaf(*id), chain(direction, rest)),
        [] => unreachable!(),
    }
}

fn chained(direction: SplitDirection, count: u64, active: PaneId) -> SessionState {
    let ids = (1..=count).map(PaneId).collect::<Vec<_>>();
    SessionState {
        layout: chain(direction, &ids),
        active,
        panes: ids.iter().map(|id| pane(*id, &absolute_root(&id.0.to_string()))).collect(),
        window: None,
    }
}

#[test]
fn nested_layout_and_pane_state_roundtrip() {
    let one = PaneId(1);
    let two = PaneId(2);
    let three = PaneId(3);
    let state = SessionState {
        layout: split(
            SplitDirection::Vertical,
            0.35,
            PaneLayout::Leaf(one),
            split(
                SplitDirection::Horizontal,
                0.7,
                PaneLayout::Leaf(two),
                PaneLayout::Leaf(three),
            ),
        ),
        active: two,
        panes: vec![
            pane(one, &absolute_root("日本語")),
            pane(two, "//server/share/長い path"),
            pane(three, &absolute_root("three")),
        ],
        window: Some(WindowGeometry {
            inner_width: float(1280.0),
            inner_height: float(720.0),
            outer_x: float(30.0),
            outer_y: float(40.0),
            maximized: true,
            valid: true,
        }),
    };
    let encoded = text_of(&encode(&state).unwrap());
    assert_eq!(parse(&encoded, true).unwrap(), state);
    assert_eq!(recorded_window(&encoded), state.window);
    assert_eq!(save(&state).unwrap(), encode(&state).unwrap());
}

#[test]
fn unknown_version_and_truncated_data_are_rejected() {
    assert!(parse("version = 99", true).unwrap_err().contains("Unsupported"));
    assert!(parse("version = 1\nactive = 1", true).is_err());
    assert_eq!(parse("version = [", true).unwrap_err(), "Invalid TOML");
}

#[test]
fn layout_above_limit_is_pruned_during_parse() {
    let state = chained(SplitDirection::Vertical, 5, PaneId(5));
    let parsed = parse(&text_of(&encode(&state).unwrap()), true).unwrap();
    assert_eq!(parsed.layout.leaves(), [PaneId(1), PaneId(2), PaneId(3), PaneId(4)]);
    assert_eq!(parsed.panes.len(), 4);
    assert_eq!(parsed.active, PaneId(1));
    assert_eq!(limit_layout(&state.layout).unwrap(), parsed.layout);
}

#[test]
fn one_two_and_four_pane_layouts_roundtrip() {
    for pane_count in [1_u64, 2, 4] {
        let state = chained(SplitDirection::Horizontal, pane_count, PaneId(pane_count));
        assert_eq!(validate(&state), Ok(()));
        assert_eq!(parse(&text_of(&encode(&state).unwrap()), true).unwrap(), state);
    }
}

#[test]
fn serialized_schema_contains_no_dirty_mode_dialog_or_inflight_state() {
    let id = PaneId(1);
    let state = SessionState {
        layout: PaneLayout::Leaf(id),
        active: id,
        panes: vec![pane(id, &absolute_root("clean"))],
        window: None,
    };
    let table = table_of(&encode(&state).unwrap());
    let pane = table["panes"].as_array().unwrap()[0].as_table().unwrap();
    assert_eq!(
        pane.keys().map(String::as_str).collect::<BTreeSet<_>>(),
        BTreeSet::from([
            "collapsed",
            "cursor",
            "expanded",
            "id",
            "root",
            "show_hidden",
            "sort",
            "sort_key",
            "sort_reverse",
        ])
    );
}

#[test]
fn sessions_that_do_not_fit_together_are_rejected() {
    let mut state = chained(SplitDirection::Vertical, 2, PaneId(9));
    assert!(validate(&state).is_err());
    state.active = PaneId(1);
    assert_eq!(validate(&state), Ok(()));
    state.panes.pop();
    assert!(validate(&state).is_err());
}

#[test]
fn only_available_panes_stay_in_the_layout() {
    let state = chained(SplitDirection::Vertical, 3, PaneId(1));
    let kept = retain_available_layout(&state.layout, &vec![PaneId(1), PaneId(3)]).unwrap();
    assert_eq!(kept.leaves(), [PaneId(1), PaneId(3)]);
    assert_eq!(retain_available_layout(&state.layout, &Vec::new()), None);
    let all = vec![PaneId(1), PaneId(2), PaneId(3)];
    assert_eq!(retain_available_layout(&state.layout, &all), Some(state.layout));
}

#[test]
fn numbers_are_read_in_single_precision() {
    let source = format!(
        "version = 1\nactive = 1\n\
         layout = {{ kind = 'split', direction = 'vertical', ratio = 0.3, \
         first = {{ kind = 'leaf', pane = 1 }}, second = {{ kind = 'leaf', pane = 2 }} }}\n\
         [window]\ninner_width = 1280\ninner_height = 720.1\nouter_x = -16777217\n\
         outer_y = 0\nmaximized = false\n\
         [[panes]]\nid = 1\nroot = '{0}'\n[[panes]]\nid = 2\nroot = '{0}'\n",
        absolute_root("a"),
    );
    let state = parse(&source, true).unwrap();
    let window = state.window.unwrap();
    assert_eq!(window.inner_width, float(1280.0));
    assert_eq!(window.inner_height, float(720.1));
    assert_eq!(window.outer_x, float(-16777216.0));
    assert_eq!(window.outer_y, float(0.0));
    match &state.layout {
        PaneLayout::Split { ratio, .. } => assert_eq!(*ratio, float(0.3)),
        other => panic!("unexpected layout: {other:?}"),
    }
    let again = parse(&text_of(&encode(&state).unwrap()), true).unwrap();
    assert_eq!(again, state);
    let full = source.replace("0.3", "0.99999999");
    assert_eq!(parse(&full, true).unwrap_err(), "split ratio must be between 0 and 1");
}
