use lineage_lite::chars::{join_with, split_chars, trim_chars};
use lineage_lite::colmap::ColumnMap;
use lineage_lite::text::{contains_str, eq_ignore_ascii_case, join_with_dots};

fn chars(s: &str) -> Vec<char> {
    s.chars().collect()
}

fn text(v: &[char]) -> String {
    v.iter().collect()
}

#[test]
fn trim_removes_unicode_white_space() {
    assert_eq!(text(&trim_chars(&chars(" \t columns = x \r\n"))), "columns = x");
    assert_eq!(text(&trim_chars(&chars("\u{3000}a b\u{a0}"))), "a b");
    assert_eq!(text(&trim_chars(&chars("   "))), "");
    let once = trim_chars(&chars("  x  "));
    assert_eq!(trim_chars(&once), once);
}

#[test]
fn split_then_join_gives_back_the_text() {
    for s in ["a,b,,c", "", ",", "abc", "a,"] {
        let parts: Vec<String> = split_chars(&chars(s), ',').iter().map(|p| text(p)).collect();
        assert_eq!(parts.len(), s.matches(',').count() + 1);
        assert_eq!(join_with(&parts, ","), s);
    }
}

#[test]
fn string_helpers() {
    assert!(contains_str("SELECT * FROM {{ ref('x') }}", "{{"));
    assert!(!contains_str("abc", "abd"));
    assert!(eq_ignore_ascii_case("SqL", "sql"));
    assert!(!eq_ignore_ascii_case("sq", "sql"));
    assert_eq!(join_with_dots(&vec!["raw".to_string(), "orders".to_string()]), "raw.orders");
}

#[test]
fn column_map_insert_and_merge() {
    let mut m = ColumnMap::new();
    m.insert("t".to_string(), vec!["a".to_string()]);
    m.insert("t".to_string(), vec!["b".to_string()]);
    assert_eq!(m.get("t").unwrap(), &["b"]);
    m.extend_entry("t".to_string(), vec!["c".to_string()]);
    assert_eq!(m.get("t").unwrap(), &["b", "c"]);
    let mut other = ColumnMap::new();
    other.insert("t".to_string(), vec!["d".to_string()]);
    other.insert("u".to_string(), vec!["e".to_string()]);
    m.merge_from(&other);
    assert_eq!(m.get("t").unwrap(), &["b", "c", "d"]);
    assert_eq!(m.get("u").unwrap(), &["e"]);
    assert!(m.get("v").is_none());
    assert_eq!(m.entries().len(), 2);
}
