use notepadppp::search::engine::{SearchEngine, SearchMode};
use notepadppp::search::find_in_files::FindInFiles;
use notepadppp::search::history::SearchHistory;
use notepadppp::ui::search_dialog::{SearchAction, SearchBarState};

fn engine(query: &str) -> SearchEngine {
    let mut e = SearchEngine::new();
    e.query = query.to_string();
    e
}

#[test]
fn find_all_reports_spans_lines_and_text() {
    let e = engine("foo");
    let ms = e.find_all("x\nfoo bar foo\ny");
    assert_eq!(ms.len(), 2);
    assert_eq!((ms[0].start, ms[0].end, ms[0].line), (2, 5, 1));
    assert_eq!(ms[0].line_text, "foo bar foo");
    assert_eq!(ms[0].match_text, "foo");
    assert_eq!((ms[1].start, ms[1].end), (10, 13));
    assert_eq!(e.count("x\nfoo bar foo\ny"), 2);
}

#[test]
fn literal_query_is_escaped() {
    let e = engine("a.b");
    assert_eq!(e.count("a.b axb"), 1);
    let empty = engine("");
    assert!(empty.find_all("anything").is_empty());
    assert_eq!(empty.count("anything"), 0);
}

#[test]
fn next_and_previous_with_wrap() {
    let e = engine("foo");
    let t = "foo bar foo";
    assert_eq!(e.find_next(t, 1).unwrap().start, 8);
    assert_eq!(e.find_next(t, 9).unwrap().start, 0);
    assert_eq!(e.find_prev(t, 8).unwrap().start, 0);
    assert_eq!(e.find_prev(t, 0).unwrap().start, 8);
    let mut nowrap = engine("foo");
    nowrap.wrap_around = false;
    assert!(nowrap.find_next(t, 9).is_none());
    assert!(nowrap.find_prev(t, 0).is_none());
}

#[test]
fn replacing_matches() {
    let mut e = engine("foo");
    e.replace_text = "X".to_string();
    let (t, m) = e.replace_next("foo bar foo", 1).unwrap();
    assert_eq!(t, "foo bar X");
    assert_eq!(m.start, 8);
    assert_eq!(e.replace_all("foo bar foo"), ("X bar X".to_string(), 2));
    assert_eq!(e.replace_all("none"), ("none".to_string(), 0));
}

#[test]
fn case_whole_word_extended_and_regex_modes() {
    let mut e = engine("FOO");
    e.case_sensitive = false;
    assert_eq!(e.count("foo Foo"), 2);
    let mut w = engine("foo");
    w.whole_word = true;
    assert_eq!(w.count("foobar foo"), 1);
    let mut x = engine("a\\tb");
    x.search_mode = SearchMode::Extended;
    assert_eq!(x.count("a\tb"), 1);
    let mut r = engine("f(o+)");
    r.search_mode = SearchMode::Regex;
    r.replace_text = "$1".to_string();
    assert_eq!(r.replace_all("foo bar fooo"), ("oo bar ooo".to_string(), 2));
    let (t, _) = r.replace_next("foo bar fooo", 3).unwrap();
    assert_eq!(t, "foo bar ooo");
    let mut bad = engine("(");
    bad.search_mode = SearchMode::Regex;
    assert_eq!(bad.count("(("), 0);
    assert!(bad.find_next("((", 0).is_none());
}

#[test]
fn search_history_keeps_newest() {
    let mut h = SearchHistory::new(2);
    h.add("a".to_string(), Vec::new());
    h.add("b".to_string(), Vec::new());
    h.add("c".to_string(), Vec::new());
    let q: Vec<&str> = h.entries().iter().map(|e| e.query.as_str()).collect();
    assert_eq!(q, vec!["b", "c"]);
    h.clear();
    assert!(h.entries().is_empty());
}

#[test]
fn file_filters() {
    assert!(FindInFiles::matches_filter("a.rs", "*.rs;*.md"));
    assert!(FindInFiles::matches_filter("b.md", "*.rs; *.md "));
    assert!(!FindInFiles::matches_filter("a.txt", "*.rs"));
    assert!(FindInFiles::matches_filter("a.txt", ""));
    assert!(FindInFiles::matches_filter("a.txt", "*.*"));
    assert!(!FindInFiles::matches_filter("a.txt", ";;"));
}

#[test]
fn search_bar_settings_reach_engine() {
    let mut bar = SearchBarState::default();
    bar.query = "q".to_string();
    bar.use_regex = true;
    bar.case_sensitive = true;
    let mut e = SearchEngine::new();
    bar.apply_to_engine(&mut e);
    assert_eq!(e.query, "q");
    assert_eq!(e.search_mode, SearchMode::Regex);
    assert!(e.use_regex && e.case_sensitive && !e.whole_word);
    assert_ne!(SearchAction::Close, SearchAction::Nothing);
}

#[test]
fn previous_match_is_the_last_found_before() {
    let e = engine("ab");
    let t = "ab ab xab ab";
    let all = e.find_all(t);
    for from in 0..=t.len() {
        let before: Vec<_> = all.iter().filter(|m| m.start < from).collect();
        let prev = e.find_prev(t, from);
        match before.last() {
            Some(m) => assert_eq!(prev.unwrap().start, m.start),
            None => assert_eq!(prev.unwrap().start, all.last().unwrap().start),
        }
    }
}
