use notepadppp::editor::folding::FoldManager;
use notepadppp::editor::line_ops::{
    delete_line, duplicate_line, insert_above, insert_below, join_lines, move_line_down,
    move_line_up, remove_duplicates, remove_empty, reverse_lines, sort_asc, sort_case_insensitive,
    sort_desc, split_line, trim_both, trim_leading, trim_trailing,
};
use notepadppp::editor::text_transforms::{
    encoding_display_name, format_diff_output, format_status_bar, format_title, inverse_case,
    line_ending_display_name, next_match_index, parse_goto_line, prev_match_index, sentence_case,
    title_case, toggle_line_comment,
};
use notepadppp::editor::document::{Encoding, LineEnding};
use notepadppp::tools::diff_tool::diff_texts;

fn v(items: &[&str]) -> Vec<String> {
    items.iter().map(|s| s.to_string()).collect()
}

#[test]
fn duplicate_and_delete_lines() {
    let mut l = v(&["a", "b"]);
    duplicate_line(&mut l, 0);
    assert_eq!(l, v(&["a", "a", "b"]));
    duplicate_line(&mut l, 7);
    assert_eq!(l, v(&["a", "a", "b"]));
    delete_line(&mut l, 1);
    assert_eq!(l, v(&["a", "b"]));
    let mut one = v(&["only"]);
    delete_line(&mut one, 5);
    assert_eq!(one, v(&[""]));
}

#[test]
fn move_lines_up_and_down() {
    let mut l = v(&["a", "b", "c"]);
    move_line_up(&mut l, 1);
    assert_eq!(l, v(&["b", "a", "c"]));
    move_line_up(&mut l, 0);
    assert_eq!(l, v(&["b", "a", "c"]));
    move_line_down(&mut l, 1);
    assert_eq!(l, v(&["b", "c", "a"]));
    move_line_down(&mut l, 2);
    assert_eq!(l, v(&["b", "c", "a"]));
}

#[test]
fn sort_lines_three_ways() {
    let mut l = v(&["b", "a", "C"]);
    sort_asc(&mut l);
    assert_eq!(l, v(&["C", "a", "b"]));
    sort_desc(&mut l);
    assert_eq!(l, v(&["b", "a", "C"]));
    let mut m = v(&["b", "A", "a", "B"]);
    sort_case_insensitive(&mut m);
    assert_eq!(m, v(&["A", "a", "b", "B"]));
    let mut w = v(&["ab", "a", "", "b"]);
    sort_asc(&mut w);
    assert_eq!(w, v(&["", "a", "ab", "b"]));
}

#[test]
fn remove_blank_and_duplicate_lines() {
    let mut l = v(&["a", "  ", "", "b"]);
    remove_empty(&mut l);
    assert_eq!(l, v(&["a", "b"]));
    let mut blank = v(&[" ", "\t"]);
    remove_empty(&mut blank);
    assert_eq!(blank, v(&[""]));
    let mut d = v(&["a", "b", "a", "c", "b"]);
    remove_duplicates(&mut d);
    assert_eq!(d, v(&["a", "b", "c"]));
    let mut e: Vec<String> = Vec::new();
    remove_duplicates(&mut e);
    assert_eq!(e, v(&[""]));
}

#[test]
fn trim_lines() {
    let mut a = v(&["a  ", " b "]);
    trim_trailing(&mut a);
    assert_eq!(a, v(&["a", " b"]));
    let mut b = v(&["a  ", " b "]);
    trim_leading(&mut b);
    assert_eq!(b, v(&["a  ", "b "]));
    let mut c = v(&["\u{3000}x\u{a0}", " b "]);
    trim_both(&mut c);
    assert_eq!(c, v(&["x", "b"]));
}

#[test]
fn join_split_insert_reverse() {
    let mut l = v(&["a", "b", "c"]);
    join_lines(&mut l, 0);
    assert_eq!(l, v(&["ab", "c"]));
    join_lines(&mut l, 1);
    assert_eq!(l, v(&["ab", "c"]));
    let mut s = v(&["abcd"]);
    split_line(&mut s, 0);
    assert_eq!(s, v(&["ab", "cd"]));
    let mut t = v(&["abc"]);
    split_line(&mut t, 0);
    assert_eq!(t, v(&["a", "bc"]));
    let mut i = v(&["a"]);
    insert_above(&mut i, 0);
    assert_eq!(i, v(&["", "a"]));
    insert_below(&mut i, 1);
    assert_eq!(i, v(&["", "a", ""]));
    let mut r = v(&["1", "2", "3"]);
    reverse_lines(&mut r);
    assert_eq!(r, v(&["3", "2", "1"]));
}

#[test]
fn case_conversions() {
    assert_eq!(title_case("hello wORLD-foo_bar"), "Hello World-Foo_Bar");
    assert_eq!(sentence_case("hello. world! ok? YES"), "Hello. World! Ok? Yes");
    assert_eq!(sentence_case("1st. 2nd"), "1St. 2Nd");
    assert_eq!(inverse_case("aBc1"), "AbC1");
    assert_eq!(title_case("ß"), "SS");
}

#[test]
fn line_comments_toggle() {
    assert_eq!(toggle_line_comment("    code", "//"), "    // code");
    assert_eq!(toggle_line_comment("    // code", "//"), "    code");
    assert_eq!(toggle_line_comment("//code", "//"), "code");
    assert_eq!(toggle_line_comment("", "#"), "# ");
}

#[test]
fn window_text_helpers() {
    assert_eq!(parse_goto_line(" 10 "), Some(9));
    assert_eq!(parse_goto_line("+3"), Some(2));
    assert_eq!(parse_goto_line("0"), None);
    assert_eq!(parse_goto_line("x1"), None);
    assert_eq!(format_title("a.txt", true), "a.txt • — Notepad+++");
    assert_eq!(format_title("a.txt", false), "a.txt — Notepad+++");
    assert_eq!(encoding_display_name(&Encoding::UTF16BE), "UTF-16 BE");
    assert_eq!(line_ending_display_name(&LineEnding::CRLF), "CRLF");
    assert_eq!(
        format_status_bar(12, 3, "UTF-8", "LF", "Rust", true),
        "  Ln 12, Col 3    UTF-8    LF    Rust    WS"
    );
    assert_eq!(
        format_status_bar(1, 0, "ASCII", "CR", "Plain", false),
        "  Ln 1, Col 0    ASCII    CR    Plain"
    );
}

#[test]
fn match_index_navigation() {
    assert_eq!(next_match_index(Some(2), 3), Some(0));
    assert_eq!(next_match_index(Some(0), 3), Some(1));
    assert_eq!(next_match_index(None, 3), Some(0));
    assert_eq!(next_match_index(Some(1), 0), None);
    assert_eq!(prev_match_index(Some(0), 3), Some(2));
    assert_eq!(prev_match_index(Some(2), 3), Some(1));
    assert_eq!(prev_match_index(None, 3), Some(2));
    assert_eq!(prev_match_index(None, 0), None);
}

#[test]
fn diff_output_text() {
    let d = diff_texts("a\nb", "a\nc");
    assert_eq!(format_diff_output(&d), "  a\n- b\n+ c\n");
    let e = diff_texts("a", "a\nb");
    assert_eq!(format_diff_output(&e), "  a\n+ b\n");
}

#[test]
fn folding_regions_and_visibility() {
    let text = "fn a() {\n    x\n}\nfn b() {\n  if y { // open\n    z\n  }\n}\n";
    let mut f = FoldManager::new();
    f.detect_regions(text);
    let r = f.regions();
    assert_eq!(r.len(), 3);
    assert_eq!((r[0].start_line, r[0].end_line, r[0].indent_level), (0, 2, 0));
    assert_eq!((r[1].start_line, r[1].end_line, r[1].indent_level), (3, 7, 0));
    assert_eq!((r[2].start_line, r[2].end_line, r[2].indent_level), (4, 6, 2));
    assert!(f.is_fold_point(4));
    assert!(!f.is_fold_point(1));
    f.toggle_fold(0);
    assert!(f.is_folded(0));
    assert!(f.is_hidden(1) && f.is_hidden(2) && !f.is_hidden(3) && !f.is_hidden(0));
    assert_eq!(f.hidden_line_count(0), 2);
    assert_eq!(f.hidden_line_count(3), 0);
    assert_eq!(f.visible_line_count(8), 6);
    assert_eq!(f.visible_to_doc_line(1, 8), 3);
    assert_eq!(f.doc_to_visible_line(3), 1);
    assert_eq!(f.visible_to_doc_line(50, 8), 7);
    f.toggle_fold(0);
    assert!(!f.is_folded(0));
    f.fold_level(0);
    assert!(f.is_folded(0) && f.is_folded(3) && !f.is_folded(4));
    f.unfold_all();
    assert!(!f.is_folded(0));
    f.fold_all();
    assert!(f.is_folded(4));
    f.unfold(4);
    assert!(!f.is_folded(4));
    f.fold(1);
    assert!(!f.is_folded(1));
    assert!(f.get_region(3).is_some());
    f.detect_regions("x\n");
    assert!(!f.is_folded(0));
    assert_eq!(f.regions().len(), 0);
    f.clear();
}
