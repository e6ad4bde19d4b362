use notepadppp::editor::buffer::TextBuffer;

#[test]
fn buffer_insert_then_undo_restores() {
    let mut b = TextBuffer::from_str("hello world");
    b.insert(5, ",");
    assert_eq!(b.text(), "hello, world");
    assert!(b.is_modified());
    assert!(b.undo());
    assert_eq!(b.text(), "hello world");
    assert!(b.redo());
    assert_eq!(b.text(), "hello, world");
    assert!(!b.redo());
}

#[test]
fn buffer_delete_then_undo_restores() {
    let mut b = TextBuffer::from_str("abcdef");
    b.delete(1, 4);
    assert_eq!(b.text(), "aef");
    assert!(b.undo());
    assert_eq!(b.text(), "abcdef");
    assert!(b.redo());
    assert_eq!(b.text(), "aef");
}

#[test]
fn buffer_undo_on_empty_history() {
    let mut b = TextBuffer::new();
    assert!(b.is_empty());
    assert!(!b.undo());
    assert!(!b.redo());
    assert!(!b.is_modified());
    assert_eq!(b.line_count(), 1);
}

#[test]
fn buffer_new_edit_clears_redo() {
    let mut b = TextBuffer::from_str("ab");
    b.insert(2, "c");
    assert!(b.undo());
    b.insert(0, "x");
    assert!(!b.redo());
    assert_eq!(b.text(), "xab");
}

#[test]
fn buffer_multibyte_offsets() {
    let mut b = TextBuffer::from_str("héllo");
    assert_eq!(b.len_bytes(), 6);
    assert_eq!(b.len_chars(), 5);
    assert_eq!(b.char_at(1), Some('é'));
    assert_eq!(b.char_at(2), Some('é'));
    assert_eq!(b.char_at(3), Some('l'));
    assert_eq!(b.char_at(6), None);
    b.insert(3, "!");
    assert_eq!(b.text(), "hé!llo");
    assert_eq!(b.line_col(4), Some((0, 3)));
}

#[test]
fn buffer_lines_and_offsets() {
    let b = TextBuffer::from_str("ab\ncde\nf");
    assert_eq!(b.line_count(), 3);
    assert_eq!(b.line(1), Some("cde\n".to_string()));
    assert_eq!(b.line(3), None);
    assert_eq!(b.line_len_chars(1), 4);
    assert_eq!(b.line_len_chars(9), 0);
    assert_eq!(b.byte_offset(1, 2), Some(5));
    assert_eq!(b.byte_offset(1, 100), Some(7));
    assert_eq!(b.byte_offset(5, 0), None);
    assert_eq!(b.line_col(5), Some((1, 2)));
    assert_eq!(b.line_col(8), Some((2, 1)));
    assert_eq!(b.line_col(9), None);
}

#[test]
fn buffer_move_text_forward_and_back() {
    let mut b = TextBuffer::from_str("abcdef");
    b.move_text(0, 2, 4);
    assert_eq!(b.text(), "cdabef");
    let mut c = TextBuffer::from_str("abcdef");
    c.move_text(4, 6, 1);
    assert_eq!(c.text(), "aefbcd");
    // dest inside the span: nothing happens
    let mut d = TextBuffer::from_str("abcdef");
    d.move_text(1, 4, 2);
    assert_eq!(d.text(), "abcdef");
    assert!(!d.is_modified());
    // empty span: nothing happens
    d.move_text(3, 3, 0);
    assert_eq!(d.text(), "abcdef");
}

#[test]
fn buffer_copy_text_to() {
    let mut b = TextBuffer::from_str("abc");
    b.copy_text_to(0, 2, 3);
    assert_eq!(b.text(), "abcab");
    b.copy_text_to(2, 9, 0);
    assert_eq!(b.text(), "abcab");
}

#[test]
fn buffer_undo_limit_drops_oldest() {
    let mut b = TextBuffer::new();
    b.insert(0, "a");
    b.insert(1, "b");
    b.insert(2, "c");
    b.set_undo_limit(Some(2));
    assert!(b.undo());
    assert!(b.undo());
    assert!(!b.undo());
    assert_eq!(b.text(), "a");
}

#[test]
fn buffer_set_modified() {
    let mut b = TextBuffer::from_str("x");
    b.insert(1, "y");
    assert!(b.is_modified());
    b.set_modified(false);
    assert!(!b.is_modified());
    assert_eq!(b.text(), "xy");
}

#[test]
fn every_edit_undoes_back_to_the_start() {
    let mut b = TextBuffer::from_str("hello");
    b.insert(5, " world");
    b.delete(0, 1);
    b.insert(0, "H");
    assert_eq!(b.text(), "Hello world");
    assert!(b.undo());
    assert!(b.undo());
    assert!(b.undo());
    assert_eq!(b.text(), "hello");
    assert!(!b.undo());
    assert_eq!(b.text(), "hello");
    assert!(b.redo());
    assert!(b.redo());
    assert!(b.redo());
    assert_eq!(b.text(), "Hello world");
}

#[test]
fn an_edit_after_undo_clears_redo() {
    let mut b = TextBuffer::from_str("abc");
    b.insert(3, "d");
    assert!(b.undo());
    assert_eq!(b.text(), "abc");
    b.delete(0, 1);
    assert!(!b.redo());
    assert_eq!(b.text(), "bc");
}
