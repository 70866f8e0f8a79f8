use tablebase::paths::{file_name, join, path_eq};
use tablebase::text::{
    decimal_string, hex_prefix, quote_ident, sql_str, str_eq, str_eq_ignore_ascii_case,
    trim_str, join_strings,
};

#[test]
fn trims_unicode_whitespace() {
    assert_eq!(trim_str("  a b \t"), "a b");
    assert_eq!(trim_str("\u{3000}x\u{2028}\u{85}"), "x");
    assert_eq!(trim_str(" \n "), "");
    assert_eq!(trim_str(""), "");
    assert_eq!(trim_str("plain"), "plain");
}

#[test]
fn renders_decimal_and_hex() {
    assert_eq!(decimal_string(0), "0");
    assert_eq!(decimal_string(1234567), "1234567");
    assert_eq!(decimal_string(u128::MAX), u128::MAX.to_string());
    assert_eq!(hex_prefix(&vec![0xbe, 0xef, 0x01, 0x00], 3), "beef01");
    assert_eq!(hex_prefix(&vec![0xff], 0), "");
}

#[test]
fn quotes_sql_text() {
    assert_eq!(sql_str("it's"), "it''s");
    assert_eq!(sql_str("''"), "''''");
    assert_eq!(quote_ident("na\"me"), "\"na\"\"me\"");
    assert_eq!(quote_ident(""), "\"\"");
}

#[test]
fn compares_text() {
    assert!(str_eq("abc", "abc"));
    assert!(!str_eq("abc", "abd"));
    assert!(!str_eq("abc", "ab"));
    assert!(str_eq_ignore_ascii_case("EMP", "emp"));
    assert!(!str_eq_ignore_ascii_case("emp", "emp1"));
    assert!(!str_eq_ignore_ascii_case("\u{e9}", "\u{c9}"));
}

#[test]
fn joins_strings() {
    let parts = vec!["a".to_string(), "b".to_string(), "c".to_string()];
    assert_eq!(join_strings(&parts, ", "), "a, b, c");
    assert_eq!(join_strings(&Vec::new(), ", "), "");
}

#[test]
fn takes_final_path_component() {
    assert_eq!(file_name("/tmp/data.csv"), "data.csv");
    assert_eq!(file_name("data.csv"), "data.csv");
    assert_eq!(file_name("/tmp/dir/"), "dir");
    assert_eq!(file_name("/tmp/dir/."), "dir");
    assert_eq!(file_name("/tmp/.."), "");
    assert_eq!(file_name("/"), "");
    assert_eq!(file_name(""), "");
    assert_eq!(file_name("."), "");
    for path in ["/tmp/data.csv", "/a//b", "x/./y/", "/tmp/dir/.", "a/..", "/", "./", "a/b/./."] {
        let expected = std::path::Path::new(path)
            .file_name()
            .map(|n| n.to_string_lossy().to_string())
            .unwrap_or_default();
        assert_eq!(file_name(path), expected, "path {path:?}");
    }
}

#[test]
fn joins_paths() {
    assert_eq!(join("/root", "x.duckdb"), "/root/x.duckdb");
    assert_eq!(join("/root/", "x.duckdb"), "/root/x.duckdb");
    assert_eq!(join("", "x.duckdb"), "x.duckdb");
    for dir in ["/root", "/root/", "", "rel/dir"] {
        let expected = std::path::Path::new(dir).join("k.access").to_string_lossy().to_string();
        assert_eq!(join(dir, "k.access"), expected);
    }
}

#[test]
fn paths_compare_by_components() {
    assert!(path_eq("/tmp/x//data.csv", "/tmp/x/data.csv"));
    assert!(path_eq("/a/b/", "/a/b"));
    assert!(path_eq("/a/./b", "/a/b"));
    assert!(path_eq("a/.", "a"));
    assert!(path_eq("", ""));
    assert!(!path_eq("./a", "a"));
    assert!(!path_eq("a", "/a"));
    assert!(!path_eq("/a/../b", "/b"));
    assert!(!path_eq(".", ""));
    assert!(!path_eq("/a/bc", "/a/b/c"));
    for (a, b) in [("/tmp/x//data.csv", "/tmp/x/data.csv"), ("./a", "a"), ("a/.", "a"), ("/a/./b", "/a/b"), (".", "")] {
        assert_eq!(path_eq(a, b), std::path::Path::new(a) == std::path::Path::new(b), "{a} {b}");
    }
}
