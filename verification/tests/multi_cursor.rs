use notepadppp::editor::multi_cursor::{word_at_offset, MultiCursorState};


#[test]
fn test_add_cursor() {
    let mut state = MultiCursorState::new();
    assert!(!state.active);
    state.add_cursor(5);
    assert!(state.active);
    assert_eq!(state.extra_cursors.len(), 1);
    assert_eq!(state.extra_cursors[0].offset, 5);
}

#[test]
fn test_no_duplicate_cursors() {
    let mut state = MultiCursorState::new();
    state.add_cursor(5);
    state.add_cursor(5);
    assert_eq!(state.extra_cursors.len(), 1);
}

#[test]
fn test_clear() {
    let mut state = MultiCursorState::new();
    state.add_cursor(5);
    state.add_cursor(10);
    state.clear();
    assert!(!state.active);
    assert!(state.extra_cursors.is_empty());
}

#[test]
fn test_insert_single_cursor() {
    let mut state = MultiCursorState::new();
    let mut text = String::from("hello world");
    state.add_cursor(5);
    state.apply_insert(&mut text, "X");
    assert_eq!(text, "helloX world");
    assert_eq!(state.extra_cursors[0].offset, 6);
}

#[test]
fn test_insert_multiple_cursors() {
    let mut state = MultiCursorState::new();
    let mut text = String::from("aaa bbb ccc");
    state.add_cursor(3);  // after "aaa"
    state.add_cursor(7);  // after "bbb"
    state.apply_insert(&mut text, "X");
    assert_eq!(text, "aaaX bbbX ccc");
    // After insert, cursors should be at 4 and 9
    let offsets: Vec<usize> = state.extra_cursors.iter().map(|c| c.offset).collect();
    assert_eq!(offsets, vec![4, 9]);
}

#[test]
fn test_backspace_single_cursor() {
    let mut state = MultiCursorState::new();
    let mut text = String::from("hello world");
    state.add_cursor(5);
    state.apply_backspace(&mut text, 1);
    assert_eq!(text, "hell world");
    assert_eq!(state.extra_cursors[0].offset, 4);
}

#[test]
fn test_backspace_multiple_cursors() {
    let mut state = MultiCursorState::new();
    let mut text = String::from("aXa bXb ccc");
    state.add_cursor(2);  // after "aX"
    state.add_cursor(6);  // after "bX"
    state.apply_backspace(&mut text, 1);
    assert_eq!(text, "aa bb ccc");
    let offsets: Vec<usize> = state.extra_cursors.iter().map(|c| c.offset).collect();
    assert_eq!(offsets, vec![1, 4]);
}

#[test]
fn test_delete_single_cursor() {
    let mut state = MultiCursorState::new();
    let mut text = String::from("hello world");
    state.add_cursor(5);
    state.apply_delete(&mut text, 1);
    assert_eq!(text, "helloworld");
    assert_eq!(state.extra_cursors[0].offset, 5);
}

#[test]
fn test_select_next_occurrence() {
    let mut state = MultiCursorState::new();
    let text = "foo bar foo baz foo";
    assert!(state.select_next_occurrence(text, "foo"));
    assert_eq!(state.extra_cursors.len(), 1);
    assert_eq!(state.extra_cursors[0].selection, Some((0, 3)));

    assert!(state.select_next_occurrence(text, "foo"));
    assert_eq!(state.extra_cursors.len(), 2);
    assert_eq!(state.extra_cursors[1].selection, Some((8, 11)));

    assert!(state.select_next_occurrence(text, "foo"));
    assert_eq!(state.extra_cursors.len(), 3);
    assert_eq!(state.extra_cursors[2].selection, Some((16, 19)));

    // No more occurrences
    assert!(!state.select_next_occurrence(text, "foo"));
}

#[test]
fn test_insert_replaces_selection() {
    let mut state = MultiCursorState::new();
    let mut text = String::from("foo bar foo");
    state.add_cursor_with_selection(3, 0, 3);  // select first "foo"
    state.add_cursor_with_selection(11, 8, 11); // select second "foo"
    state.apply_insert(&mut text, "baz");
    assert_eq!(text, "baz bar baz");
}

#[test]
fn test_word_at_offset() {
    let text = "hello world_test 123";
    assert_eq!(word_at_offset(text, 0), Some(("hello".to_string(), 0, 5)));
    assert_eq!(word_at_offset(text, 6), Some(("world_test".to_string(), 6, 16)));
    assert_eq!(word_at_offset(text, 5), None); // space
    assert_eq!(word_at_offset(text, 17), Some(("123".to_string(), 17, 20)));
}

#[test]
fn test_backspace_at_start() {
    let mut state = MultiCursorState::new();
    let mut text = String::from("hello");
    state.add_cursor(0);
    state.apply_backspace(&mut text, 1);
    assert_eq!(text, "hello"); // nothing deleted
    assert_eq!(state.extra_cursors[0].offset, 0);
}

#[test]
fn test_delete_at_end() {
    let mut state = MultiCursorState::new();
    let mut text = String::from("hello");
    state.add_cursor(5);
    state.apply_delete(&mut text, 1);
    assert_eq!(text, "hello"); // nothing deleted
    assert_eq!(state.extra_cursors[0].offset, 5);
}
