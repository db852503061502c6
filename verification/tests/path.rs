use rojo::path::{components, ends_with, file_name, join, match_trailing, parent, relative, starts_with, str_eq};

#[test]
fn parent_of_nested_path() {
    assert_eq!(parent("/foo/bar"), Some("/foo".to_string()));
    assert_eq!(parent("/foo"), Some("/".to_string()));
    assert_eq!(parent("/"), None);
    assert_eq!(parent(""), None);
    assert_eq!(parent("foo"), Some(String::new()));
    assert_eq!(parent("foo/bar"), Some("foo".to_string()));
}

#[test]
fn file_name_is_last_component() {
    assert_eq!(file_name("/foo/bar.lua"), "bar.lua");
    assert_eq!(file_name("bar.lua"), "bar.lua");
    assert_eq!(file_name("/"), "");
}

#[test]
fn join_inserts_one_separator() {
    assert_eq!(join("/foo", "bar"), "/foo/bar");
    assert_eq!(join("/", "bar"), "/bar");
    assert_eq!(join("", "bar"), "bar");
    assert_eq!(join("/foo/", "bar"), "/foo/bar");
}

#[test]
fn join_then_parent_gives_base() {
    assert_eq!(parent(&join("/foo", "bar")), Some("/foo".to_string()));
}

#[test]
fn suffix_and_prefix_tests() {
    assert!(ends_with("foo.server.lua", ".lua"));
    assert!(!ends_with("foo.lua", ".server.lua"));
    assert!(ends_with("x", ""));
    assert!(starts_with("/foo/bar", "/foo"));
    assert!(!starts_with("/fo", "/foo"));
    assert!(str_eq("abc", "abc"));
    assert!(!str_eq("abc", "abd"));
    assert!(!str_eq("abc", "ab"));
}

#[test]
fn match_trailing_strips_the_trailer() {
    assert_eq!(match_trailing("foo.server.lua", ".server.lua"), Some("foo"));
    assert_eq!(match_trailing("foo.lua", ".server.lua"), None);
    assert_eq!(match_trailing("foo.lua", ".lua"), Some("foo"));
    assert_eq!(match_trailing(".lua", ".lua"), Some(""));
    assert_eq!(match_trailing("h\u{e9}llo.lua", ".lua"), Some("h\u{e9}llo"));
}

#[test]
fn relative_path_below_start() {
    assert_eq!(relative("/foo", "/foo/bar/baz"), Some("bar/baz"));
    assert_eq!(relative("/foo", "/foo"), Some(""));
    assert_eq!(relative("/foo", "/foobar"), None);
    assert_eq!(relative("/foo", "/bar"), None);
    assert_eq!(relative("/", "/bar"), Some("bar"));
    assert_eq!(relative("", "bar"), Some("bar"));
}

#[test]
fn components_skip_empty_names() {
    assert_eq!(components("a/b//c/"), vec!["a".to_string(), "b".to_string(), "c".to_string()]);
    assert_eq!(components(""), Vec::<String>::new());
    assert_eq!(components("/"), Vec::<String>::new());
    assert_eq!(components("abc"), vec!["abc".to_string()]);
}
