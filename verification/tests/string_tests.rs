#![allow(non_snake_case)]
use webserve::file_helpers::{combine_paths, remove_prefix_from_path};
use webserve::string_helpers::{combine_set_tokens, simple_decode_string, simple_encode_string};
use webserve::text::{parse_u32, split_once_char, split_str, str_lt, trim_str, u64_to_string};

#[test]
fn test_remove_prefix_from_path_1() {
    let mut path = "/one/two/three/".to_string();

    let res = remove_prefix_from_path(&mut path, "/one/two/");

    assert_eq!(res, true);
    assert_eq!(path, "three/");
}

#[test]
fn test_combine_set_tokens_1() {}

#[test]
fn test_string_decode_1() {
    let start = "once+upon+a+time";

    assert_eq!(simple_decode_string(&start), "once upon a time");
}

#[test]
fn test_string_decode_2() {
    let start = "once+upon%2Fa+time";

    assert_eq!(simple_decode_string(&start), "once upon/a time");
}

#[test]
fn combine_set_tokens_rules() {
    assert_eq!(combine_set_tokens("", "z"), "z");
    assert_eq!(combine_set_tokens("x, y", ""), "x, y");
    assert_eq!(combine_set_tokens("x, y", "z"), "x, y, z");
    assert_eq!(combine_set_tokens("x,", "z"), "x,z");
}

#[test]
fn encode_and_decode() {
    assert_eq!(simple_encode_string("a b/c"), "a+b%2Fc");
    assert_eq!(simple_decode_string("a+b%2Fc"), "a b/c");
    assert_eq!(simple_decode_string("%41%42"), "AB");
    assert_eq!(simple_decode_string("%zz"), "%zz");
    assert_eq!(simple_decode_string("%2B"), " ");
}

#[test]
fn remove_prefix_not_matching() {
    let mut path = "/one/two".to_string();
    let res = remove_prefix_from_path(&mut path, "/zzz/");
    assert_eq!(res, false);
    assert_eq!(path, "/one/two");

    let mut short = "/a".to_string();
    let res2 = remove_prefix_from_path(&mut short, "/a/b/c");
    assert_eq!(res2, false);
    assert_eq!(short, "/a");
}

#[test]
fn combine_paths_rules() {
    assert_eq!(combine_paths("", "x.jpg"), "x.jpg");
    assert_eq!(combine_paths("/base", "x.jpg"), "/base/x.jpg");
    assert_eq!(combine_paths("/base/", "x.jpg"), "/base/x.jpg");
}

#[test]
fn text_primitives() {
    assert_eq!(u64_to_string(0), "0");
    assert_eq!(u64_to_string(9081), "9081");
    assert_eq!(parse_u32("123"), Some(123));
    assert_eq!(parse_u32("+7"), Some(7));
    assert_eq!(parse_u32(""), None);
    assert_eq!(parse_u32("12a"), None);
    assert_eq!(parse_u32("99999999999"), None);
    assert_eq!(trim_str("  a b\t"), "a b");
    assert_eq!(split_once_char("k: v", ':'), Some(("k".to_string(), " v".to_string())));
    assert_eq!(split_once_char("kv", ':'), None);
    assert!(str_lt("France", "Italy"));
    assert!(!str_lt("Italy", "France"));
    let pieces = split_str("a=1; b=2; c", "; ");
    assert_eq!(pieces, vec!["a=1".to_string(), "b=2".to_string(), "c".to_string()]);
}
