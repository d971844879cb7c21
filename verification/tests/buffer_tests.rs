use ved::buffer::{Buffer, EditError};

fn cv(s: &str) -> Vec<char> {
    s.chars().collect()
}

fn lines(b: &Buffer) -> Vec<String> {
    b.lines.iter().map(|l| l.iter().collect()).collect()
}

#[test]
fn new_empty_contents_is_one_empty_line() {
    let b = Buffer::new(None, "");
    assert_eq!(lines(&b), vec![String::new()]);
    assert!(!b.is_modified);
    assert!(b.file.is_none());
}

#[test]
fn new_splits_on_line_feeds() {
    let b = Buffer::new(None, "a\nbb\nccc");
    assert_eq!(lines(&b), vec!["a", "bb", "ccc"]);
}

#[test]
fn new_trailing_separator_adds_no_line() {
    let b = Buffer::new(None, "a\n");
    assert_eq!(lines(&b), vec!["a"]);
    let b2 = Buffer::new(None, "\n");
    assert_eq!(lines(&b2), vec![""]);
}

#[test]
fn new_strips_carriage_return_before_line_feed() {
    let b = Buffer::new(None, "ab\r\ncd");
    assert_eq!(lines(&b), vec!["ab", "cd"]);
}

#[test]
fn new_keeps_path() {
    let b = Buffer::new(Some("dir/f.txt"), "x");
    assert_eq!(b.file, Some(cv("dir/f.txt")));
}

#[test]
fn len_counts_lines() {
    let b = Buffer::new(None, "a\nb");
    assert_eq!(b.len(), 2);
}

#[test]
fn get_line_in_and_out_of_range() {
    let b = Buffer::new(None, "ab\ncd");
    assert_eq!(b.get_line(1).unwrap(), &cv("cd"));
    assert_eq!(b.get_line(2).unwrap_err(), EditError::InvalidLine);
}

#[test]
fn insert_char_inserts_and_marks_modified() {
    let mut b = Buffer::new(None, "abc");
    b.insert_char(1, 0, 'X').unwrap();
    assert_eq!(lines(&b), vec!["aXbc"]);
    assert!(b.is_modified);
}

#[test]
fn insert_char_at_end_of_line() {
    let mut b = Buffer::new(None, "ab");
    b.insert_char(2, 0, 'c').unwrap();
    assert_eq!(lines(&b), vec!["abc"]);
}

#[test]
fn insert_char_bad_row() {
    let mut b = Buffer::new(None, "ab");
    assert_eq!(b.insert_char(0, 5, 'x').unwrap_err(), EditError::InvalidLine);
    assert!(!b.is_modified);
}

#[test]
fn insert_char_bad_column() {
    let mut b = Buffer::new(None, "ab");
    assert_eq!(b.insert_char(3, 0, 'x').unwrap_err(), EditError::InvalidColumn);
}

#[test]
fn insert_char_refuses_line_feed() {
    let mut b = Buffer::new(None, "ab");
    assert_eq!(b.insert_char(1, 0, '\n').unwrap_err(), EditError::InvalidChar);
    assert_eq!(lines(&b), vec!["ab"]);
}

#[test]
fn remove_char_removes_and_marks_modified() {
    let mut b = Buffer::new(None, "abc");
    b.remove_char(1, 0).unwrap();
    assert_eq!(lines(&b), vec!["ac"]);
    assert!(b.is_modified);
}

#[test]
fn remove_char_bad_column_at_line_length() {
    let mut b = Buffer::new(None, "ab");
    assert_eq!(b.remove_char(2, 0).unwrap_err(), EditError::InvalidColumn);
}

#[test]
fn remove_line_returns_text() {
    let mut b = Buffer::new(None, "a\nb\nc");
    let l = b.remove_line(1).unwrap();
    assert_eq!(l, cv("b"));
    assert_eq!(lines(&b), vec!["a", "c"]);
    assert!(b.is_modified);
}

#[test]
fn remove_line_single_line_clears_in_place() {
    let mut b = Buffer::new(None, "only");
    let l = b.remove_line(0).unwrap();
    assert_eq!(l, cv("only"));
    assert_eq!(b.len(), 1);
    assert_eq!(lines(&b), vec![""]);
}

#[test]
fn remove_line_out_of_range() {
    let mut b = Buffer::new(None, "a");
    assert_eq!(b.remove_line(1).unwrap_err(), EditError::InvalidLine);
}

#[test]
fn insert_new_line_inserts_empty_line() {
    let mut b = Buffer::new(None, "a\nb");
    b.insert_new_line(1, 0);
    assert_eq!(lines(&b), vec!["a", "", "b"]);
    assert!(b.is_modified);
}

#[test]
fn split_line_splits_at_column() {
    let mut b = Buffer::new(None, "abcd");
    b.split_line(0, 2);
    assert_eq!(lines(&b), vec!["ab", "cd"]);
}

#[test]
fn merge_line_joins_with_previous() {
    let mut b = Buffer::new(None, "ab\ncd");
    b.merge_line(1);
    assert_eq!(lines(&b), vec!["abcd"]);
}

#[test]
fn file_name_is_last_path_segment() {
    let b = Buffer::new(Some("a/b/c.rs"), "");
    assert_eq!(b.file_name(), Some(cv("c.rs")));
    let b2 = Buffer::new(Some("plain"), "");
    assert_eq!(b2.file_name(), Some(cv("plain")));
    let b3 = Buffer::new(Some("dir/"), "");
    assert_eq!(b3.file_name(), None);
    let b4 = Buffer::new(None, "");
    assert_eq!(b4.file_name(), None);
}

#[test]
fn contents_joins_with_line_feeds() {
    let b = Buffer::new(None, "ab\ncd");
    let s: String = b.contents().iter().collect();
    assert_eq!(s, "ab\ncd");
}

#[test]
fn save_then_load_round_trip() {
    let original = "fn main() {\n    body\n}";
    let b = Buffer::new(Some("x.rs"), original);
    let written: String = b.contents().iter().collect();
    let reloaded = Buffer::new(Some("x.rs"), &written);
    assert_eq!(lines(&reloaded), lines(&b));
}

#[test]
fn mark_saved_clears_modified() {
    let mut b = Buffer::new(None, "a");
    b.insert_char(0, 0, 'x').unwrap();
    assert!(b.is_modified);
    b.mark_saved();
    assert!(!b.is_modified);
}

#[test]
fn set_file_rebinds_path() {
    let mut b = Buffer::new(None, "a");
    b.set_file(cv("new.txt"));
    assert_eq!(b.file, Some(cv("new.txt")));
}
