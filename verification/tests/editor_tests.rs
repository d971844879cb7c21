use ved::buffer::Buffer;
use ved::editor::{Action, Editor, Key, Mode, SaveRequest, Status};

fn cv(s: &str) -> Vec<char> {
    s.chars().collect()
}

fn lines(ed: &Editor) -> Vec<String> {
    ed.buffers[ed.active_buffer].lines.iter().map(|l| l.iter().collect()).collect()
}

fn editor_over(contents: &[&str]) -> Editor {
    let buffers: Vec<Buffer> = contents.iter().map(|c| Buffer::new(None, c)).collect();
    Editor::new(buffers, (80, 24)).unwrap()
}

#[test]
fn new_requires_a_buffer() {
    assert!(Editor::new(Vec::new(), (80, 24)).is_err());
}

#[test]
fn new_starts_in_normal_mode_at_origin() {
    let ed = editor_over(&["abc"]);
    assert_eq!(ed.mode, Mode::Normal);
    assert_eq!((ed.cx, ed.cy), (0, 0));
    assert_eq!(ed.scroll_offset, 0);
    assert!(!ed.exit);
}

#[test]
fn add_char_at_origin() {
    // Buffer ["abc"], cursor (0,0); AddChar('X') gives "Xabc", cursor (1,0).
    let mut ed = editor_over(&["abc"]);
    ed.mode = Mode::Insert;
    ed.handle_action(Action::AddChar('X'));
    assert_eq!(lines(&ed), vec!["Xabc"]);
    assert_eq!((ed.cx, ed.cy), (1, 0));
    assert!(ed.buffers[0].is_modified);
}

#[test]
fn insert_backspace_at_column_zero_merges_lines() {
    // Buffer ["ab","cd"], cursor (0,1); Insert-mode Backspace gives ["abcd"],
    // cursor (2,0).
    let mut ed = editor_over(&["ab\ncd"]);
    ed.mode = Mode::Insert;
    ed.cy = 1;
    ed.cx = 0;
    ed.handle_key(Key::Backspace, false);
    assert_eq!(lines(&ed), vec!["abcd"]);
    assert_eq!((ed.cx, ed.cy), (2, 0));
}

#[test]
fn insert_backspace_removes_left_of_cursor() {
    let mut ed = editor_over(&["abc"]);
    ed.mode = Mode::Insert;
    ed.cx = 2;
    ed.handle_key(Key::Backspace, false);
    assert_eq!(lines(&ed), vec!["ac"]);
    assert_eq!(ed.cx, 1);
}

#[test]
fn quit_command_on_unmodified_buffer_terminates() {
    // Command "q" on an unmodified single buffer sets the terminate flag.
    let mut ed = editor_over(&["abc"]);
    ed.handle_key(Key::Char(':'), false);
    assert_eq!(ed.mode, Mode::Command);
    ed.handle_key(Key::Char('q'), false);
    ed.handle_key(Key::Enter, false);
    assert!(ed.exit);
    assert_eq!(ed.mode, Mode::Normal);
}

#[test]
fn quit_command_on_modified_buffer_is_guarded() {
    let mut ed = editor_over(&["abc"]);
    ed.mode = Mode::Insert;
    ed.handle_key(Key::Char('x'), false);
    ed.handle_key(Key::Esc, false);
    ed.handle_key(Key::Char(':'), false);
    ed.handle_key(Key::Char('q'), false);
    ed.handle_key(Key::Enter, false);
    assert!(!ed.exit);
    assert_eq!(ed.status_message, Some(Status::UnsavedChanges));
}

#[test]
fn forced_quit_always_terminates() {
    let mut ed = editor_over(&["abc"]);
    ed.mode = Mode::Insert;
    ed.handle_key(Key::Char('x'), false);
    ed.handle_key(Key::Esc, false);
    for k in [Key::Char(':'), Key::Char('q'), Key::Char('!'), Key::Enter] {
        ed.handle_key(k, false);
    }
    assert!(ed.exit);
}

#[test]
fn unknown_command_sets_status() {
    let mut ed = editor_over(&["abc"]);
    for k in [Key::Char(':'), Key::Char('z'), Key::Char('z'), Key::Enter] {
        ed.handle_key(k, false);
    }
    assert_eq!(ed.status_message, Some(Status::UnknownCommand));
    assert!(!ed.exit);
}

#[test]
fn next_buffer_cycles_back_to_start() {
    // NextBuffer applied buffers.len() times returns to the original index.
    let mut ed = editor_over(&["a", "b", "c"]);
    let n = ed.buffers.len();
    for _ in 0..n {
        ed.handle_action(Action::NextBuffer);
    }
    assert_eq!(ed.active_buffer, 0);
}

#[test]
fn previous_buffer_cycles_back_to_start() {
    let mut ed = editor_over(&["a", "b", "c"]);
    let n = ed.buffers.len();
    for _ in 0..n {
        ed.handle_action(Action::PreviousBuffer);
    }
    assert_eq!(ed.active_buffer, 0);
}

#[test]
fn next_and_previous_buffer_wrap() {
    let mut ed = editor_over(&["a", "b"]);
    ed.handle_action(Action::NextBuffer);
    assert_eq!(ed.active_buffer, 1);
    ed.handle_action(Action::NextBuffer);
    assert_eq!(ed.active_buffer, 0);
    ed.handle_action(Action::PreviousBuffer);
    assert_eq!(ed.active_buffer, 1);
}

#[test]
fn movement_saturates_at_edges() {
    let mut ed = editor_over(&["ab\ncd"]);
    ed.handle_key(Key::Char('k'), false);
    assert_eq!(ed.cy, 0);
    ed.handle_key(Key::Char('h'), false);
    assert_eq!(ed.cx, 0);
    ed.handle_key(Key::Char('j'), false);
    ed.handle_key(Key::Char('j'), false);
    assert_eq!(ed.cy, 1);
    ed.handle_key(Key::Char('l'), false);
    ed.handle_key(Key::Char('l'), false);
    ed.handle_key(Key::Char('l'), false);
    // Normal mode keeps the cursor on the last character.
    assert_eq!(ed.cx, 1);
}

#[test]
fn start_and_end_of_line() {
    let mut ed = editor_over(&["abcd"]);
    ed.handle_key(Key::Char('$'), false);
    assert_eq!(ed.cx, 3);
    ed.handle_key(Key::Char('0'), false);
    assert_eq!(ed.cx, 0);
}

#[test]
fn cursor_bounds_hold_under_arbitrary_movement() {
    // Move and page actions keep 0 <= row < lines.len() and the column
    // within the line, after every single step.
    let mut ed = editor_over(&["abc\n\nx\nlonger line\nz"]);
    let keys = [
        Key::Char('j'), Key::Char('l'), Key::Char('l'), Key::Char('k'),
        Key::Char('$'), Key::Char('j'), Key::Char('j'), Key::Char('h'),
        Key::Up, Key::Down, Key::Left, Key::Right, Key::Char('0'),
    ];
    for k in keys {
        ed.handle_key(k, false);
        let row_count = ed.buffers[ed.active_buffer].lines.len();
        assert!(ed.cy < row_count);
        let line_len = ed.buffers[ed.active_buffer].lines[ed.cy].len();
        assert!(ed.cx <= line_len.saturating_sub(1).max(0));
    }
}

#[test]
fn page_down_and_up_saturate() {
    let text = (0..50).map(|i| i.to_string()).collect::<Vec<_>>().join("\n");
    let buffers = vec![Buffer::new(None, &text)];
    let mut ed = Editor::new(buffers, (80, 12)).unwrap();
    ed.handle_key(Key::Char('d'), true);
    assert_eq!(ed.cy, 10);
    ed.handle_key(Key::Char('u'), true);
    assert_eq!(ed.cy, 0);
    for _ in 0..20 {
        ed.handle_key(Key::Char('d'), true);
    }
    assert_eq!(ed.cy, 49);
}

#[test]
fn scroll_window_follows_cursor() {
    // scroll_offset <= row < scroll_offset + visible_rows after every step.
    let text = (0..20).map(|i| i.to_string()).collect::<Vec<_>>().join("\n");
    let buffers = vec![Buffer::new(None, &text)];
    let mut ed = Editor::new(buffers, (80, 5)).unwrap();
    let vis = ed.visible_lines();
    assert_eq!(vis, 3);
    for _ in 0..19 {
        ed.handle_key(Key::Char('j'), false);
        assert!(ed.scroll_offset <= ed.cy);
        assert!(ed.cy < ed.scroll_offset + vis);
    }
    for _ in 0..19 {
        ed.handle_key(Key::Char('k'), false);
        assert!(ed.scroll_offset <= ed.cy);
        assert!(ed.cy < ed.scroll_offset + vis);
    }
}

#[test]
fn scroll_never_leaves_blank_filler() {
    let text = (0..10).map(|i| i.to_string()).collect::<Vec<_>>().join("\n");
    let buffers = vec![Buffer::new(None, &text)];
    let mut ed = Editor::new(buffers, (80, 5)).unwrap();
    for _ in 0..9 {
        ed.handle_key(Key::Char('j'), false);
    }
    assert_eq!(ed.scroll_offset, 7);
    // Deleting lines near the bottom pulls the window back.
    for _ in 0..8 {
        ed.handle_key(Key::Char('d'), false);
    }
    let len = ed.buffers[0].lines.len();
    assert_eq!(len, 2);
    assert_eq!(ed.scroll_offset, 0);
}

#[test]
fn enter_insert_mode_and_back() {
    let mut ed = editor_over(&["abc"]);
    ed.handle_key(Key::Char('i'), false);
    assert_eq!(ed.mode, Mode::Insert);
    ed.handle_key(Key::Esc, false);
    assert_eq!(ed.mode, Mode::Normal);
}

#[test]
fn insert_mode_allows_cursor_past_last_character() {
    let mut ed = editor_over(&["ab"]);
    ed.handle_key(Key::Char('i'), false);
    ed.handle_key(Key::Char('x'), false);
    ed.handle_key(Key::Char('y'), false);
    assert_eq!(lines(&ed), vec!["xyab"]);
    assert_eq!(ed.cx, 2);
}

#[test]
fn command_line_accumulates_and_clears() {
    let mut ed = editor_over(&["abc"]);
    ed.handle_key(Key::Char(':'), false);
    ed.handle_key(Key::Char('w'), false);
    ed.handle_key(Key::Char('x'), false);
    assert_eq!(ed.command_line, cv("wx"));
    ed.handle_key(Key::Backspace, false);
    assert_eq!(ed.command_line, cv("w"));
    ed.handle_key(Key::Esc, false);
    assert_eq!(ed.mode, Mode::Normal);
    assert!(ed.command_line.is_empty());
}

#[test]
fn enter_in_insert_mode_splits_line() {
    let mut ed = editor_over(&["abcd"]);
    ed.mode = Mode::Insert;
    ed.cx = 2;
    ed.handle_key(Key::Enter, false);
    assert_eq!(lines(&ed), vec!["ab", "cd"]);
    assert_eq!((ed.cx, ed.cy), (0, 1));
}

#[test]
fn delete_line_in_normal_mode() {
    let mut ed = editor_over(&["a\nb\nc"]);
    ed.handle_key(Key::Char('j'), false);
    ed.handle_key(Key::Char('d'), false);
    assert_eq!(lines(&ed), vec!["a", "c"]);
}

#[test]
fn delete_only_line_leaves_one_empty_line() {
    let mut ed = editor_over(&["only"]);
    ed.handle_key(Key::Char('d'), false);
    assert_eq!(lines(&ed), vec![""]);
    assert_eq!(ed.buffers[0].lines.len(), 1);
}

#[test]
fn save_without_path_reports_no_file_name() {
    let mut ed = editor_over(&["abc"]);
    let r = ed.handle_key(Key::Char('w'), true);
    assert!(matches!(r, SaveRequest::NoSave));
    assert_eq!(ed.status_message, Some(Status::NoFileName));
}

#[test]
fn save_with_path_requests_write() {
    let buffers = vec![Buffer::new(Some("f.txt"), "abc")];
    let mut ed = Editor::new(buffers, (80, 24)).unwrap();
    ed.mode = Mode::Insert;
    ed.handle_key(Key::Char('x'), false);
    assert!(ed.buffers[0].is_modified);
    ed.handle_key(Key::Esc, false);
    let r = ed.handle_key(Key::Char('w'), true);
    assert!(matches!(r, SaveRequest::SaveCurrent));
    ed.finish_save(true);
    assert!(!ed.buffers[0].is_modified);
    assert_eq!(ed.status_message, Some(Status::FileSaved));
}

#[test]
fn failed_save_keeps_modified_flag() {
    let buffers = vec![Buffer::new(Some("f.txt"), "abc")];
    let mut ed = Editor::new(buffers, (80, 24)).unwrap();
    ed.mode = Mode::Insert;
    ed.handle_key(Key::Char('x'), false);
    ed.finish_save(false);
    assert!(ed.buffers[0].is_modified);
    assert_eq!(ed.status_message, Some(Status::SaveFailed));
}

#[test]
fn write_command_with_path_requests_save_as() {
    let mut ed = editor_over(&["abc"]);
    for k in [
        Key::Char(':'), Key::Char('w'), Key::Char(' '), Key::Char('n'),
        Key::Char('e'), Key::Char('w'),
    ] {
        ed.handle_key(k, false);
    }
    let r = ed.handle_key(Key::Enter, false);
    match r {
        SaveRequest::SaveCurrentAs(p) => assert_eq!(p, cv("new")),
        _ => panic!("expected a save-as request"),
    }
    ed.finish_save_as(cv("new"), true);
    assert_eq!(ed.buffers[0].file, Some(cv("new")));
    assert!(!ed.buffers[0].is_modified);
    assert_eq!(ed.status_message, Some(Status::FileSavedAs));
}

#[test]
fn write_quit_requests_save_and_terminates() {
    let buffers = vec![Buffer::new(Some("f.txt"), "abc")];
    let mut ed = Editor::new(buffers, (80, 24)).unwrap();
    for k in [Key::Char(':'), Key::Char('w'), Key::Char('q')] {
        ed.handle_key(k, false);
    }
    let r = ed.handle_key(Key::Enter, false);
    assert!(matches!(r, SaveRequest::SaveCurrent));
    assert!(ed.exit);
}

#[test]
fn resize_reclamps_viewport() {
    let text = (0..20).map(|i| i.to_string()).collect::<Vec<_>>().join("\n");
    let buffers = vec![Buffer::new(None, &text)];
    let mut ed = Editor::new(buffers, (80, 24)).unwrap();
    for _ in 0..19 {
        ed.handle_key(Key::Char('j'), false);
    }
    ed.handle_resize((80, 5));
    let vis = ed.visible_lines();
    assert!(ed.scroll_offset <= ed.cy);
    assert!(ed.cy < ed.scroll_offset + vis);
}

#[test]
fn unrecognized_keys_are_ignored() {
    let mut ed = editor_over(&["abc"]);
    let before = (ed.cx, ed.cy, ed.mode);
    ed.handle_key(Key::Other, false);
    ed.handle_key(Key::Enter, false);
    ed.handle_key(Key::Backspace, false);
    assert_eq!((ed.cx, ed.cy, ed.mode), before);
}
