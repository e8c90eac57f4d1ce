use postcard_bindgen_core::code_gen::variable_path::decimal_string;
use postcard_bindgen_core::text::{chars_of, join_strings, split_str};

#[test]
fn split_behaves_like_str_split() {
    assert_eq!(split_str("a::b::c", "::"), vec!["a".to_string(), "b".into(), "c".into()]);
    assert_eq!(split_str("::a::", "::"), vec!["".to_string(), "a".into(), "".into()]);
    assert_eq!(split_str("abc", "x"), vec!["abc".to_string()]);
    let expected: Vec<String> = "ab".split("").map(|s| s.to_string()).collect();
    assert_eq!(split_str("ab", ""), expected);
}

#[test]
fn join_then_split_gives_the_parts_back() {
    let parts: Vec<String> = vec!["x".into(), "yy".into(), "".into(), "z".into()];
    let joined = join_strings(&parts, "/");
    assert_eq!(joined, "x/yy//z");
    assert_eq!(split_str(&joined, "/"), parts);
}

#[test]
fn split_then_join_gives_the_string_back() {
    for s in ["", "a", "a.b", ".a.", "..", "abc.def.g"] {
        assert_eq!(join_strings(&split_str(s, "."), "."), s);
    }
}

#[test]
fn join_of_nothing_is_empty() {
    assert_eq!(join_strings(&Vec::new(), ", "), "");
}

#[test]
fn chars_are_listed_in_order() {
    assert_eq!(chars_of("héllo"), vec!['h', 'é', 'l', 'l', 'o']);
}

#[test]
fn decimal_strings() {
    assert_eq!(decimal_string(0), "0");
    assert_eq!(decimal_string(7), "7");
    assert_eq!(decimal_string(10), "10");
    assert_eq!(decimal_string(1234567), "1234567");
    assert_eq!(decimal_string(usize::MAX), usize::MAX.to_string());
}
