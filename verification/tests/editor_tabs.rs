use notepadppp::editor::cursor::Position;
use notepadppp::editor::document::{Encoding, LineEnding};
use notepadppp::editor::tab_manager::TabManager;
use notepadppp::io::session::{capture_session, restore_session, Session, SessionFile};

#[test]
fn tabs_open_move_close() {
    let mut tm = TabManager::new();
    assert_eq!(tm.tab_count(), 1);
    assert_eq!(tm.get_tab_title(0), "Untitled 1");
    assert_eq!(tm.new_tab(), 1);
    assert_eq!(tm.get_tab_title(1), "Untitled 2");
    assert_eq!(tm.active_index(), 1);
    let idx = tm.open_file("/a/b.txt".to_string(), "hello", Encoding::UTF8, LineEnding::LF);
    assert_eq!(idx, 2);
    assert_eq!(tm.get_tab_title(2), "b.txt");
    assert_eq!(tm.get_tab_title(7), "");
    tm.move_tab(2, 0);
    assert_eq!(tm.active_index(), 0);
    assert_eq!(tm.get_tab_title(0), "b.txt");
    assert_eq!(tm.get_tab_title(1), "Untitled 1");
    assert!(tm.close_tab(1).is_none());
    assert_eq!(tm.tab_count(), 2);
    assert_eq!(tm.active_index(), 0);
    assert!(!tm.is_any_modified());
    tm.active_document_mut().buffer.insert(0, "x");
    assert!(tm.is_any_modified());
    let closed = tm.close_tab(0).expect("modified document is returned");
    assert_eq!(closed.buffer.text(), "xhello");
    assert_eq!(tm.tab_count(), 1);
    assert_eq!(tm.get_tab_title(0), "Untitled 2");
    tm.close_all();
    assert_eq!(tm.tab_count(), 1);
    assert_eq!(tm.get_tab_title(0), "Untitled 3");
    assert!(tm.close_tab(5).is_none());
}

#[test]
fn tabs_reload_and_save_as() {
    let mut tm = TabManager::new();
    let idx = tm.open_file("/x/y.txt".to_string(), "old", Encoding::UTF8, LineEnding::LF);
    assert_eq!(
        tm.reload_tab(idx, "new text", Encoding::UTF16LE, LineEnding::CRLF),
        Ok(())
    );
    let d = tm.get_document(idx).unwrap();
    assert_eq!(d.buffer.text(), "new text");
    assert!(!d.is_modified());
    assert_eq!(d.encoding, Encoding::UTF16LE);
    assert_eq!(d.line_ending, LineEnding::CRLF);
    assert_eq!(
        tm.reload_tab(0, "z", Encoding::UTF8, LineEnding::LF),
        Err("Tab has no file path".to_string())
    );
    assert_eq!(
        tm.reload_tab(99, "z", Encoding::UTF8, LineEnding::LF),
        Err("Invalid tab index".to_string())
    );
    tm.get_document_mut(0).unwrap().buffer.insert(0, "q");
    tm.record_saved_as(0, "/tmp/s.txt".to_string());
    assert_eq!(tm.get_tab_title(0), "s.txt");
    assert!(!tm.get_document(0).unwrap().is_modified());
    tm.set_active(1);
    let session = capture_session(&tm, "work");
    assert_eq!(session.name, "work");
    assert_eq!(session.active_tab, 1);
    let paths: Vec<&str> = session.files.iter().map(|f| f.path.as_str()).collect();
    assert_eq!(paths, vec!["/tmp/s.txt", "/x/y.txt"]);
    assert_eq!(session.files[1].encoding, "UTF-16 LE");
    assert_eq!(session.files[1].line_ending, "CRLF");
}

fn entry(path: &str, line: usize, col: usize) -> SessionFile {
    SessionFile {
        path: path.to_string(),
        cursor_line: line,
        cursor_col: col,
        encoding: "UTF-16 BE".to_string(),
        line_ending: "CR".to_string(),
    }
}

#[test]
fn session_restore_reopens_read_files() {
    let session = Session {
        name: "s".to_string(),
        files: vec![entry("/a", 0, 1), entry("/b", 0, 0), entry("/c", 1, 2)],
        active_tab: 1,
    };
    let contents = vec![
        Some(("A".to_string(), Encoding::UTF8, LineEnding::LF)),
        None,
        Some(("C\nCC".to_string(), Encoding::ASCII, LineEnding::CRLF)),
    ];
    let mut tm = TabManager::new();
    assert_eq!(restore_session(&session, &mut tm, &contents), Ok(()));
    assert_eq!(tm.tab_count(), 2);
    assert_eq!(tm.active_index(), 1);
    let a = tm.get_document(0).unwrap();
    assert_eq!(a.path.as_deref(), Some("/a"));
    assert_eq!(a.buffer.text(), "A");
    assert_eq!(a.cursor.position, Position::new(0, 0));
    assert_eq!(a.encoding, Encoding::UTF8);
    let c = tm.get_document(1).unwrap();
    assert_eq!(c.path.as_deref(), Some("/c"));
    assert_eq!(c.cursor.position, Position::new(1, 2));
    assert_eq!(c.encoding, Encoding::UTF16BE);
    assert_eq!(c.line_ending, LineEnding::CR);

    let none: Vec<Option<(String, Encoding, LineEnding)>> = vec![None, None, None];
    assert_eq!(restore_session(&session, &mut tm, &none), Ok(()));
    assert_eq!(tm.tab_count(), 1);
    assert_eq!(tm.active_index(), 0);
    assert!(tm.get_document(0).unwrap().path.is_none());
}
