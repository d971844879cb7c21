use ved::text::{chars_eq, chars_eq_str, join_chars, parse_chars, split_ws_chars, str_to_chars};

fn cv(s: &str) -> Vec<char> {
    s.chars().collect()
}

#[test]
fn str_to_chars_lists_characters() {
    assert_eq!(str_to_chars("héllo"), cv("héllo"));
    assert_eq!(str_to_chars(""), Vec::<char>::new());
}

#[test]
fn chars_eq_compares_contents() {
    assert!(chars_eq(&cv("abc"), &cv("abc")));
    assert!(!chars_eq(&cv("abc"), &cv("abd")));
    assert!(!chars_eq(&cv("abc"), &cv("ab")));
    assert!(chars_eq_str(&cv("abc"), "abc"));
}

#[test]
fn parse_chars_empty_is_one_empty_line() {
    let r = parse_chars(&Vec::new());
    assert_eq!(r, vec![Vec::<char>::new()]);
}

#[test]
fn parse_then_join_round_trip() {
    let text = cv("one\ntwo\nthree");
    let lines = parse_chars(&text);
    assert_eq!(lines, vec![cv("one"), cv("two"), cv("three")]);
    assert_eq!(join_chars(&lines), text);
}

#[test]
fn split_ws_chars_tokenizes() {
    let toks = split_ws_chars(&cv("  w   file.txt "));
    assert_eq!(toks, vec![cv("w"), cv("file.txt")]);
    assert_eq!(split_ws_chars(&cv("   ")), Vec::<Vec<char>>::new());
    assert_eq!(split_ws_chars(&cv("")), Vec::<Vec<char>>::new());
}
