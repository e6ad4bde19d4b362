use notepadppp::editor::function_list::extract_symbols;
use notepadppp::editor::brackets::{find_matching_bracket, is_bracket};
use notepadppp::editor::column_select::ColumnSelection;
use notepadppp::editor::cursor::{CursorState, Position};
use notepadppp::editor::document::{Encoding, LineEnding};
use notepadppp::editor::function_list::SymbolKind;
use notepadppp::editor::indent::{compute_indent, get_indent, reindent_paste};
use notepadppp::editor::macros::{CursorMove, MacroAction, MacroRecorder};
use notepadppp::editor::marks::MarkManager;

#[test]
fn brackets_match_both_ways() {
    let text = "fn main() { let x = (1 + 2); }";
    assert_eq!(find_matching_bracket(text, 10), Some(29));
    assert_eq!(find_matching_bracket(text, 29), Some(10));
    assert_eq!(find_matching_bracket(text, 20), Some(26));
    assert_eq!(find_matching_bracket(text, 26), Some(20));
    assert_eq!(find_matching_bracket(text, 7), Some(8));
}

#[test]
fn brackets_none_cases() {
    let text = "fn main() { let x = (1 + 2); }";
    assert_eq!(find_matching_bracket(text, 0), None);
    assert_eq!(find_matching_bracket(text, 100), None);
    assert_eq!(find_matching_bracket("((", 0), None);
    assert_eq!(find_matching_bracket("))", 1), None);
    assert_eq!(find_matching_bracket("", 0), None);
}

#[test]
fn brackets_mixed_kinds_and_multibyte() {
    assert_eq!(find_matching_bracket("[(])", 0), Some(2));
    assert_eq!(find_matching_bracket("é(x)", 2), Some(4));
    assert!(is_bracket("é(x)", 2));
    assert!(!is_bracket("é(x)", 3));
    assert!(!is_bracket("é(x)", 9));
    assert!(is_bracket("a}", 1));
}

#[test]
fn marks_add_query_clear() {
    let mut m = MarkManager::default();
    assert!(m.is_empty());
    m.mark_all(vec![(2, 5), (10, 12)]);
    assert_eq!(m.count(), 2);
    assert_eq!(m.marks(), &[(2, 5), (10, 12)]);
    assert!(m.contains(2));
    assert!(m.contains(4));
    assert!(!m.contains(5));
    assert!(m.contains(11));
    assert!(!m.contains(0));
    m.clear();
    assert!(m.is_empty());
    assert!(!m.contains(3));
}

#[test]
fn indent_of_line_and_next_line() {
    assert_eq!(get_indent("    let x"), "    ");
    assert_eq!(get_indent("\tx"), "\t");
    assert_eq!(get_indent("x"), "");
    assert_eq!(compute_indent("    fn f() {", "    "), "        ");
    assert_eq!(compute_indent("  if x:   ", "  "), "    ");
    assert_eq!(compute_indent("  x = 1", "\t"), "  ");
}

#[test]
fn reindent_pasted_block() {
    assert_eq!(reindent_paste("a\n    b\n      c\n", "  "), "a\n  b\n    c\n");
    assert_eq!(reindent_paste("a\n\n    b", "\t"), "a\n\n\tb");
    assert_eq!(reindent_paste("", "  "), "");
    assert_eq!(reindent_paste("  one", "    "), "  one");
}

#[test]
fn column_selection_extract_delete_insert() {
    let mut sel = ColumnSelection::new();
    assert_eq!(sel.extract_text("abc"), "");
    sel.start(2, 3);
    sel.extend(0, 1);
    assert_eq!(sel.rows(), (0, 2));
    assert_eq!(sel.cols(), (1, 3));
    let text = "abcd\nefgh\nijkl";
    assert_eq!(sel.extract_text(text), "bc\nfg\njk");
    assert_eq!(sel.delete_selection(text), "ad\neh\nil");
    assert_eq!(sel.insert_at_selection(text, "X"), "aXd\neXh\niXl");
    assert_eq!(sel.insert_at_selection("abcd\nefgh\n", "1\n2"), "a1d\ne2h\n");
    sel.clear();
    assert!(!sel.active);
    assert_eq!(sel.delete_selection(text), text);
}

#[test]
fn column_selection_short_lines_and_missing_rows() {
    let mut sel = ColumnSelection::default();
    sel.start(0, 2);
    sel.extend(3, 5);
    assert_eq!(sel.extract_text("a\nabcdef"), "\ncde\n\n");
}

#[test]
fn cursor_selection_ordering() {
    let mut c = CursorState::new();
    assert!(!c.has_selection());
    assert_eq!(c.selected_range(), None);
    c.set_position(3, 4);
    c.start_selection();
    c.position = Position::new(1, 9);
    assert_eq!(c.selected_range(), Some((Position::new(1, 9), Position::new(3, 4))));
    c.start_selection();
    assert_eq!(c.anchor, Some(Position::new(3, 4)));
    c.move_home();
    assert_eq!(c.position, Position::new(1, 0));
    assert!(!c.has_selection());
    assert_eq!(Position::zero(), Position::new(0, 0));
}

#[test]
fn encoding_names_and_line_endings() {
    assert_eq!(Encoding::from_name("UTF-8"), Some(Encoding::UTF8));
    assert_eq!(Encoding::from_name("utf-8-BOM"), Some(Encoding::UTF8BOM));
    assert_eq!(Encoding::from_name("UTF16le"), Some(Encoding::UTF16LE));
    assert_eq!(Encoding::from_name("utf-16-be"), Some(Encoding::UTF16BE));
    assert_eq!(Encoding::from_name("Latin1"), Some(Encoding::ASCII));
    assert_eq!(Encoding::from_name("ascii"), Some(Encoding::ASCII));
    assert_eq!(Encoding::from_name("ebcdic"), None);
    assert_eq!(LineEnding::CRLF.as_str(), "\r\n");
    assert_eq!(LineEnding::LF.as_str(), "\n");
    assert_eq!(LineEnding::CR.as_str(), "\r");
}

#[test]
fn macro_recording_flow() {
    let mut r = MacroRecorder::new();
    r.record_action(MacroAction::Cut);
    assert!(!r.is_recording());
    r.start_recording();
    assert!(r.is_recording());
    r.record_action(MacroAction::InsertText(String::from("hi")));
    r.record_action(MacroAction::MoveCursor(CursorMove::Left(2)));
    let m = r.stop_recording("m1");
    assert!(!r.is_recording());
    assert_eq!(m.name, "m1");
    assert_eq!(m.actions.len(), 2);
    assert!(matches!(&m.actions[0], MacroAction::InsertText(s) if s == "hi"));
    assert!(matches!(m.actions[1], MacroAction::MoveCursor(CursorMove::Left(2))));
    assert_eq!(r.saved_macros().len(), 1);
    r.delete_macro(5);
    assert_eq!(r.saved_macros().len(), 1);
    r.delete_macro(0);
    assert_eq!(r.saved_macros().len(), 0);
}

#[test]
fn symbol_kind_labels() {
    assert_eq!(SymbolKind::Function.label(), "fn");
    assert_eq!(SymbolKind::Interface.label(), "iface");
    assert_eq!(SymbolKind::Method.label(), "method");
}

#[test]
fn function_list_rust_symbols() {
    let text = "fn main() {\n    pub fn helper(x: i32) {}\nstruct Point {\nimpl Display for Point {\n// fn commented\n";
    let syms = extract_symbols(text, "Rust");
    let got: Vec<(usize, String, SymbolKind)> =
        syms.iter().map(|s| (s.line, s.name.clone(), s.kind)).collect();
    assert_eq!(
        got,
        vec![
            (0, "main".to_string(), SymbolKind::Function),
            (1, "helper".to_string(), SymbolKind::Function),
            (2, "Point".to_string(), SymbolKind::Struct),
            (3, "impl Display".to_string(), SymbolKind::Function),
        ]
    );
}

#[test]
fn function_list_other_languages() {
    let py = extract_symbols("class Foo:\n    def bar(self):\nx = 1", "python");
    assert_eq!(py.len(), 2);
    assert_eq!((py[0].line, py[0].name.as_str(), py[0].kind), (0, "Foo", SymbolKind::Class));
    assert_eq!((py[1].line, py[1].name.as_str(), py[1].kind), (1, "bar", SymbolKind::Function));

    let c = extract_symbols(
        "int main(int argc) {\nif (x) {\nfoo.bar();\nstatic void Widget::draw() {\n~Widget();",
        "C++",
    );
    let names: Vec<&str> = c.iter().map(|s| s.name.as_str()).collect();
    assert_eq!(names, vec!["main", "Widget::draw"]);
    assert_eq!(c[1].line, 3);

    let js = extract_symbols("const add = (a, b) => a + b;", "JavaScript");
    assert_eq!(js.len(), 1);
    assert_eq!(js[0].name, "add");

    let perl = extract_symbols("sub foo {\n}", "Perl");
    assert_eq!(perl.len(), 1);
    assert_eq!(perl[0].name, "foo");
    assert_eq!(perl[0].kind, SymbolKind::Function);
}
