use notepadppp::editor::buffer::TextBuffer;
use notepadppp::editor::cursor::{line_char_len, CursorState, Position};
use notepadppp::editor::document::{Document, Encoding, LineEnding};
use notepadppp::editor::macros::{CursorMove, Macro, MacroAction, MacroRecorder};
use notepadppp::io::large_file::LargeFileInfo;

fn macro_of(actions: Vec<MacroAction>) -> Macro {
    Macro { name: "m".to_string(), actions }
}

#[test]
fn playback_moves_types_and_deletes() {
    let mut doc = Document::from_str("hello\nworld");
    let m = macro_of(vec![
        MacroAction::MoveCursor(CursorMove::Right(2)),
        MacroAction::InsertText("XY".to_string()),
        MacroAction::MoveCursor(CursorMove::End),
        MacroAction::DeleteBackward(1),
    ]);
    MacroRecorder::play_macro(&m, &mut doc);
    assert_eq!(doc.buffer.text(), "heXYll\nworld");
    assert_eq!(doc.cursor.position, Position::new(0, 6));
    assert!(doc.is_modified());
}

#[test]
fn playback_n_times() {
    let mut doc = Document::new();
    let m = macro_of(vec![MacroAction::InsertText("ab".to_string())]);
    MacroRecorder::play_macro_n_times(&m, &mut doc, 2);
    assert_eq!(doc.buffer.text(), "abab");
    assert_eq!(doc.cursor.position, Position::new(0, 4));
}

#[test]
fn playback_delete_forward_and_newlines() {
    let mut doc = Document::from_str("ab\ncdef");
    let m = macro_of(vec![
        MacroAction::MoveCursor(CursorMove::Down(1)),
        MacroAction::DeleteForward(3),
    ]);
    MacroRecorder::play_macro(&m, &mut doc);
    assert_eq!(doc.buffer.text(), "ab\nf");
    assert_eq!(doc.cursor.position, Position::new(1, 0));

    let mut doc2 = Document::from_str("a");
    let m2 = macro_of(vec![MacroAction::InsertText("x\nyz".to_string())]);
    MacroRecorder::play_macro(&m2, &mut doc2);
    assert_eq!(doc2.buffer.text(), "x\nyza");
    assert_eq!(doc2.cursor.position, Position::new(1, 2));
}

#[test]
fn playback_undo_redo_and_noops() {
    let mut doc = Document::from_str("abc");
    let m = macro_of(vec![
        MacroAction::InsertText("Z".to_string()),
        MacroAction::Undo,
        MacroAction::Copy,
        MacroAction::Paste("q".to_string()),
    ]);
    MacroRecorder::play_macro(&m, &mut doc);
    assert_eq!(doc.buffer.text(), "abc");
    assert_eq!(doc.cursor.position, Position::new(0, 1));
    let m2 = macro_of(vec![MacroAction::Redo]);
    MacroRecorder::play_macro(&m2, &mut doc);
    assert_eq!(doc.buffer.text(), "Zabc");
}

#[test]
fn playback_select_anchors() {
    let mut doc = Document::from_str("abc\ndef");
    let m = macro_of(vec![
        MacroAction::SelectText(CursorMove::Left(0)),
        MacroAction::MoveCursor(CursorMove::DocumentEnd),
    ]);
    MacroRecorder::play_macro(&m, &mut doc);
    assert_eq!(doc.cursor.anchor, None);
    assert_eq!(doc.cursor.position, Position::new(1, 3));
    let m2 = macro_of(vec![MacroAction::SelectText(CursorMove::Up(0))]);
    MacroRecorder::play_macro(&m2, &mut doc);
    assert_eq!(doc.cursor.anchor, Some(Position::new(1, 3)));
}

#[test]
fn cursor_moves_over_lines() {
    let buf = TextBuffer::from_str("ab\ncd\r\nxyz");
    let mut c = CursorState::new();
    c.set_position(0, 2);
    c.move_right(&buf);
    assert_eq!(c.position, Position::new(1, 0));
    c.move_left(&buf);
    assert_eq!(c.position, Position::new(0, 2));
    c.move_down(&buf);
    assert_eq!(c.position, Position::new(1, 2));
    c.move_end(&buf);
    assert_eq!(c.position, Position::new(1, 2));
    c.move_down(&buf);
    c.move_end(&buf);
    assert_eq!(c.position, Position::new(2, 3));
    c.move_up(&buf);
    assert_eq!(c.position, Position::new(1, 2));
    assert_eq!(line_char_len(&buf, 1), 2);
    assert_eq!(line_char_len(&buf, 7), 0);
}

#[test]
fn cursor_word_moves_and_selections() {
    let buf = TextBuffer::from_str("foo bar\nbaz");
    let mut c = CursorState::new();
    c.move_word_right(&buf);
    assert_eq!(c.position, Position::new(0, 4));
    c.set_position(0, 7);
    c.move_word_left(&buf);
    assert_eq!(c.position, Position::new(0, 4));
    c.set_position(0, 5);
    c.select_word(&buf);
    assert_eq!(c.anchor, Some(Position::new(0, 4)));
    assert_eq!(c.position, Position::new(0, 7));
    c.select_line(&buf);
    assert_eq!(c.anchor, Some(Position::new(0, 0)));
    assert_eq!(c.position, Position::new(0, 8));
    c.select_all(&buf);
    assert_eq!(c.anchor, Some(Position::new(0, 0)));
    assert_eq!(c.position, Position::new(1, 3));
}

#[test]
fn document_title_and_builders() {
    let d = Document::new();
    assert_eq!(d.title(), "Untitled");
    let d = d
        .with_path("/tmp/x/notes.txt".to_string())
        .with_encoding(Encoding::UTF16LE)
        .with_line_ending(LineEnding::CRLF)
        .with_language("Rust");
    assert_eq!(d.title(), "notes.txt");
    assert_eq!(d.encoding, Encoding::UTF16LE);
    assert_eq!(d.line_ending, LineEnding::CRLF);
    assert_eq!(d.language, "Rust");
    let mut d = d.with_large_file_info(LargeFileInfo::from_size(20 * 1024 * 1024));
    assert!(d.large_file_info.is_large);
    for i in 0..150 {
        d.buffer.insert(0, "x");
        assert_eq!(d.buffer.len_chars(), i + 1);
    }
    let mut undone = 0;
    while d.buffer.undo() {
        undone += 1;
    }
    assert_eq!(undone, 100);
}
