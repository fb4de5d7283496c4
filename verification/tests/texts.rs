use brows::text::{
    chars_of, ends_with_chars, find_chars, find_chars_from, starts_with_chars, string_from,
    trim_bounds,
};
use brows::util::{json_str, CREATE_NO_WINDOW, DETACHED_PROCESS};
use brows::version::{lex_less_exec, tag_numbers_of};

#[test]
fn json_str_reads_a_string_value() {
    assert_eq!(json_str(r#"{"tag_name": "v1.2.3", "x": 1}"#, "tag_name"), Some("v1.2.3".to_string()));
    assert_eq!(json_str("{\"name\":\n\t \"Work\"}", "name"), Some("Work".to_string()));
    assert_eq!(json_str(r#"{"name":""}"#, "name"), Some("".to_string()));
}

#[test]
fn json_str_without_a_string_value_is_none() {
    assert_eq!(json_str(r#"{"a": 1}"#, "a"), None);
    assert_eq!(json_str(r#"{"a": "unterminated"#, "a"), None);
    assert_eq!(json_str(r#"{"b": "x"}"#, "a"), None);
    assert_eq!(json_str(r#"{"a" : "x"}"#, "a"), None);
}

#[test]
fn json_str_takes_the_first_key_and_does_not_unescape() {
    assert_eq!(json_str(r#"{"a":"one","a":"two"}"#, "a"), Some("one".to_string()));
    assert_eq!(json_str(r#"{"a":"x\"y"}"#, "a"), Some("x\\".to_string()));
}

#[test]
fn process_flags() {
    assert_eq!(CREATE_NO_WINDOW, 0x0800_0000);
    assert_eq!(DETACHED_PROCESS, 0x0000_0008);
}

#[test]
fn version_numbers() {
    assert_eq!(tag_numbers_of("v1.2.3"), vec![1, 2, 3]);
    assert_eq!(tag_numbers_of("vv1..2"), vec![1, 2]);
    assert_eq!(tag_numbers_of("1.2-beta.4"), vec![1, 4]);
    assert_eq!(tag_numbers_of("4294967295.4294967296"), vec![4294967295]);
    assert_eq!(tag_numbers_of("+7.-1"), vec![7]);
    assert_eq!(tag_numbers_of(""), Vec::<u32>::new());
}

#[test]
fn version_lists_compare_like_vectors() {
    assert!(lex_less_exec(&vec![1, 2], &vec![1, 2, 0]));
    assert!(lex_less_exec(&vec![1, 2, 9], &vec![1, 3]));
    assert!(!lex_less_exec(&vec![1, 3], &vec![1, 3]));
    assert!(lex_less_exec(&vec![], &vec![0]));
    assert!(lex_less_exec(&vec![2], &vec![10, 0]));
}

#[test]
fn character_helpers() {
    let v = chars_of("  héllo wörld \t");
    let (a, b) = trim_bounds(&v);
    assert_eq!(string_from(&v, a, b), "héllo wörld");
    let w = chars_of("wörld");
    assert_eq!(find_chars(&v, &w), Some(8));
    assert_eq!(find_chars_from(&v, &w, 9), None);
    assert!(starts_with_chars(&v, &chars_of("  h")));
    assert!(ends_with_chars(&v, &chars_of("\t")));
}
