use pointcloud_cli::paths::{join_chars, path_component_count, path_is_absolute};
use pointcloud_cli::text::{
    decimal_chars, i64_decimal_chars, parse_i32_chars, parse_usize_chars, replace_chars,
    split_on_char, split_ws, trim_chars,
};

fn chars(s: &str) -> Vec<char> {
    s.chars().collect()
}

fn string(v: &[char]) -> String {
    v.iter().collect()
}

#[test]
fn usize_parsing_follows_std() {
    for s in ["0", "42", "+7", "18446744073709551615", "", "+", "-1", " 1", "1a", "18446744073709551616"] {
        assert_eq!(parse_usize_chars(&chars(s)), s.parse::<usize>().ok(), "{}", s);
    }
}

#[test]
fn i32_parsing_follows_std() {
    for s in ["0", "-0", "+5", "-2147483648", "2147483647", "2147483648", "-2147483649", "-", "", "3x", "99999999999"] {
        assert_eq!(parse_i32_chars(&chars(s)), s.parse::<i32>().ok(), "{}", s);
    }
}

#[test]
fn decimals() {
    assert_eq!(string(&decimal_chars(0)), "0");
    assert_eq!(string(&decimal_chars(1203)), "1203");
    assert_eq!(string(&decimal_chars(u64::MAX)), u64::MAX.to_string());
    assert_eq!(string(&i64_decimal_chars(-45)), "-45");
}

#[test]
fn trimming_and_words() {
    assert_eq!(string(&trim_chars(&chars("\t a b \r\n"))), "a b");
    let ws: Vec<String> = split_ws(&chars("  one\ttwo  three ")).iter().map(|w| string(w)).collect();
    assert_eq!(ws, vec!["one", "two", "three"]);
    assert!(split_ws(&chars("   ")).is_empty());
}

#[test]
fn splitting_on_a_character_keeps_empty_pieces() {
    let ps: Vec<String> = split_on_char(&chars("1//3"), '/').iter().map(|w| string(w)).collect();
    assert_eq!(ps, "1//3".split('/').collect::<Vec<_>>());
    assert_eq!(split_on_char(&chars(""), '/').len(), 1);
}

#[test]
fn replacing_all_occurrences() {
    let r = replace_chars(&chars("{stem}-{stem}.ply"), &chars("{stem}"), &chars("a"));
    assert_eq!(string(&r), "a-a.ply");
}

#[test]
fn paths() {
    assert!(path_is_absolute(&chars("/a/b")));
    assert!(!path_is_absolute(&chars("a/b")));
    assert_eq!(path_component_count(&chars("a/b/c")), 3);
    assert_eq!(string(&join_chars(&chars("out"), &chars("x.ply"))), "out/x.ply");
    assert_eq!(string(&join_chars(&chars("out"), &chars("/abs.ply"))), "/abs.ply");
}
