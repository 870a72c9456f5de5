use fyler_app::config::{load, ConfigSource};
use fyler_app::fs_path::{located, FsPath, JoinedPath};
use fyler_app::grammar::{
    format_id_prefix, indent, split_dir_suffix, split_id_prefix, split_indent, EntryId,
    PrefixParse,
};
use fyler_app::session::parse;
use fyler_app::text::{
    decimal_text, has_prefix, join_texts, parse_u64, signed_text, trim,
};
use fyler_app::toml_doc::{nested_list_texts, read_toml, update_toml, write_toml, TomlTable, TomlValue};
use fyler_app::tree::TreePath;

fn text(value: &str) -> TomlValue {
    TomlValue::Str(value.to_owned())
}

#[test]
fn documents_are_read_back() {
    let mut inner = TomlTable::new();
    inner.insert("quoted \"key\"", text("a 'b' \"c\" \\ \n 日本語"));
    inner.insert("", TomlValue::Integer(-7));
    let mut table = TomlTable::new();
    table.insert("list", TomlValue::Array(vec![text("x"), TomlValue::Boolean(true)]));
    table.insert("inner", TomlValue::Table(inner));
    let copy = || {
        let mut inner = TomlTable::new();
        inner.insert("", TomlValue::Integer(-7));
        inner.insert("quoted \"key\"", text("a 'b' \"c\" \\ \n 日本語"));
        let mut table = TomlTable::new();
        table.insert("inner", TomlValue::Table(inner));
        table.insert("list", TomlValue::Array(vec![text("x"), TomlValue::Boolean(true)]));
        table
    };
    assert_eq!(table, copy());
    let written = write_toml(table).unwrap();
    assert_ne!(written, "");
    assert_eq!(read_toml(&written).unwrap(), copy());
}

#[test]
fn numbers_and_dates_are_read_as_they_stand() {
    let table = read_toml("f = 0.5\nd = 1979-05-27\ni = 3\n").unwrap();
    assert_eq!(table.get("f"), Some(&TomlValue::Float(0.5f64.to_bits())));
    assert_eq!(table.get("d"), Some(&TomlValue::Datetime("1979-05-27".to_owned())));
    assert_eq!(table.get("i"), Some(&TomlValue::Integer(3)));
    assert_eq!(table.get("missing"), None);
}

#[test]
fn documents_that_cannot_be_read_back_are_not_written() {
    let mut table = TomlTable::new();
    table.insert("f", TomlValue::Float(0));
    assert_eq!(write_toml(table), None);
    let mut deep = text("end");
    for _ in 0..20 {
        deep = TomlValue::Array(vec![deep]);
    }
    let mut table = TomlTable::new();
    table.insert("deep", deep);
    assert_eq!(write_toml(table), None);
}

#[test]
fn one_entry_is_changed_and_the_rest_kept() {
    let updated = update_toml("a = 1\nstate = 'old'\n", "state", "new").unwrap().unwrap();
    let table = read_toml(&updated).unwrap();
    assert_eq!(table.get("a"), Some(&TomlValue::Integer(1)));
    assert_eq!(table.get("state"), Some(&text("new")));
    assert!(update_toml("a = [", "state", "new").is_err());
}

#[test]
fn items_are_told_as_they_are_written() {
    assert_eq!(
        nested_list_texts("[statusline]\nleft = ['mode', 3]\n", "statusline", "left"),
        ["\"mode\"", "3"]
    );
    assert!(nested_list_texts("left = 1", "statusline", "left").is_empty());
    let (_, warnings) = load(
        ConfigSource::Text {
            path: "config.toml".to_owned(),
            source: "[statusline]\nleft = ['bogus']\n[keymap.normal]\n\"x\\\"y\" = 1\n".to_owned(),
        },
        None,
        Vec::new(),
        vec!["mode".to_owned()],
    );
    assert!(warnings.contains(&"Ignoring unknown statusline item: \"bogus\"".to_owned()));
    assert!(warnings.contains(&"keymap.normal entry \"x\\\"y\" must be a string".to_owned()));
}

#[test]
fn names_are_quoted_in_complaints() {
    let source = "version = 1\nactive = 1\nlayout = { kind = 'leaf', pane = 1 }\n\
                  [[panes]]\nid = 1\nroot = '/r'\ncursor = ['a\\b/c']\ncollapsed = []\n";
    assert!(parse(source, true)
        .unwrap_err()
        .contains("Invalid tree path component: \"a\\\\b/c\""));
}

#[test]
fn id_prefix_is_read_back() {
    for id in [1, 42, 999, 1000, u64::MAX] {
        let line = format!("{}name.txt", format_id_prefix(EntryId(id)));
        match split_id_prefix(&line) {
            PrefixParse::WithId { id: read, rest } => {
                assert_eq!(read, EntryId(id));
                assert_eq!(rest, "name.txt");
            }
            other => panic!("unexpected prefix: {other:?}"),
        }
    }
    assert_eq!(format_id_prefix(EntryId(1)), "/001 ");
    assert!(matches!(split_id_prefix("name.txt"), PrefixParse::NoId { .. }));
    assert!(matches!(split_id_prefix("/x name.txt"), PrefixParse::Broken));
}

#[test]
fn indentation_and_suffix_are_taken_off() {
    let line = format!("{}dir/", indent(2));
    let (levels, rest) = split_indent(&line);
    assert_eq!(levels, 2);
    assert_eq!(rest, "dir/");
    assert_eq!(split_dir_suffix(&rest), ("dir".to_owned(), true));
    assert_eq!(split_dir_suffix("file"), ("file".to_owned(), false));
}

#[test]
fn tree_paths_are_made_of_names() {
    let path = TreePath::parse("a/b/c");
    assert_eq!(path.depth(), 3);
    assert_eq!(path.name(), Some(&"c".to_owned()));
    assert_eq!(path.parent(), Some(TreePath::parse("a/b")));
    assert_eq!(TreePath::root().parent(), None);
    assert_eq!(path.prefix(1), TreePath::parse("a"));
    assert_eq!(TreePath::parse("a/b").child("c"), path);
    assert_eq!(path.display(), "a/b/c");
    assert!(TreePath::parse("a").is_strict_ancestor_of(&path));
    assert!(!path.is_strict_ancestor_of(&path));
    assert!(!TreePath::parse("ab").is_strict_ancestor_of(&TreePath::parse("abc/d")));
    assert_eq!(
        located(&FsPath::from_text("/r"), &path),
        JoinedPath::bare(FsPath::from_text("/r")).join("a").join("b").join("c")
    );
}

#[test]
fn texts_are_taken_apart_and_joined() {
    assert_eq!(decimal_text(0), "0");
    assert_eq!(decimal_text(u64::MAX), "18446744073709551615");
    assert_eq!(signed_text(i64::MIN), "-9223372036854775808");
    assert_eq!(parse_u64("18446744073709551615"), Some(u64::MAX));
    assert_eq!(parse_u64("18446744073709551616"), None);
    assert_eq!(parse_u64(""), None);
    assert_eq!(trim("\t a b \u{3000}"), "a b");
    assert_eq!(join_texts(&vec!["a".to_owned(), "b".to_owned()], ", "), "a, b");
    assert!(has_prefix("abc", "ab"));
    assert!(!has_prefix("a", "ab"));
}
