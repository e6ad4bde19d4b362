//! Searching the files of a directory: the results kept, and which file
//! names a filter such as `*.rs;*.md` admits.
use vstd::prelude::*;
use crate::search::engine::{SearchEngine, SearchMatch, SearchMode};
use crate::text::{seqs_of, str_chars, str_eq, string_from_chars, trim, trimmed_chars};

verus! {

/// What `glob_match::glob_match` decides for a glob and a path.
pub uninterp spec fn glob_matches(glob: Seq<char>, path: Seq<char>) -> bool;

/// `glob_match::glob_match`: whether `path` matches the glob pattern.
/// The decision is named, not stated.
#[verifier::external_body]
fn glob_match(glob: &str, path: &str) -> (res: bool)
    ensures
        res == glob_matches(glob@, path@),
{
    glob_match::glob_match(glob, path)
}

/// The matches found in one file.
#[derive(Debug, Clone)]
pub struct FileSearchResult {
    pub path: String,
    pub matches: Vec<SearchMatch>,
}

/// How many replacements were made in one file.
#[derive(Debug)]
pub struct ReplaceInFilesResult {
    pub path: String,
    pub replacements: usize,
}

/// The results of the last search over files.
pub struct FindInFiles {
    pub results: Vec<FileSearchResult>,
}

/// The pieces of `s` between the occurrences of `c`, as `str::split` gives
/// them: always at least one, empty ones included.
pub open spec fn split_at_char(s: Seq<char>, c: char) -> Seq<Seq<char>>
    decreases s.len(),
{
    if s.len() == 0 {
        seq![Seq::<char>::empty()]
    } else {
        let parts = split_at_char(s.drop_last(), c);
        if s.last() == c {
            parts.push(Seq::<char>::empty())
        } else {
            parts.update(parts.len() - 1, parts.last().push(s.last()))
        }
    }
}

/// Whether a filter admits a file name: an empty filter, `*` and `*.*`
/// admit everything; otherwise one of its `;`-separated globs, trimmed and
/// not empty, must match.
pub open spec fn filter_admits(name: Seq<char>, filter: Seq<char>) -> bool {
    if filter.len() == 0 || filter == "*"@ || filter == "*.*"@ {
        true
    } else {
        exists|k: int|
            0 <= k < split_at_char(filter, ';').len() && trim(
                #[trigger] split_at_char(filter, ';')[k],
            ).len() > 0 && glob_matches(trim(split_at_char(filter, ';')[k]), name)
    }
}

/// The pieces of `s` between the occurrences of `c` (see `split_at_char`).
pub(crate) fn split_pieces(s: &[char], c: char) -> (res: Vec<Vec<char>>)
    ensures
        seqs_of(res@) == split_at_char(s@, c),
{
    let mut parts: Vec<Vec<char>> = Vec::new();
    parts.push(Vec::new());
    let mut i: usize = 0;
    proof {
        assert(s@.take(0) == Seq::<char>::empty());
        assert(seqs_of(parts@) == seq![Seq::<char>::empty()]);
    }
    while i < s.len()
        invariant
            i <= s@.len(),
            parts@.len() >= 1,
            seqs_of(parts@) == split_at_char(s@.take(i as int), c),
        decreases s.len() - i,
    {
        proof {
            assert(s@.take(i as int + 1).drop_last() == s@.take(i as int));
        }
        let ghost prev = seqs_of(parts@);
        if s[i] == c {
            parts.push(Vec::new());
            proof {
                assert(seqs_of(parts@) == prev.push(Seq::<char>::empty()));
            }
        } else {
            let mut last = parts.pop().unwrap();
            last.push(s[i]);
            parts.push(last);
            proof {
                assert(seqs_of(parts@) == prev.update(prev.len() - 1, prev.last().push(s@[i as int])));
            }
        }
        i += 1;
    }
    proof {
        assert(s@.take(s@.len() as int) == s@);
    }
    parts
}

impl FindInFiles {
    /// Whether `filter` admits the file name `filename` (see
    /// `filter_admits`).
    pub fn matches_filter(filename: &str, filter: &str) -> (res: bool)
        ensures
            res == filter_admits(filename@, filter@),
    {
        let f = str_chars(filter);
        if f.len() == 0 || str_eq(filter, "*") || str_eq(filter, "*.*") {
            return true;
        }
        let pieces = split_pieces(f.as_slice(), ';');
        let ghost parts = seqs_of(pieces@);
        let mut k: usize = 0;
        while k < pieces.len()
            invariant
                k <= pieces@.len(),
                parts == seqs_of(pieces@),
                parts == split_at_char(filter@, ';'),
                forall|j: int|
                    0 <= j < k ==> !(trim(#[trigger] parts[j]).len() > 0 && glob_matches(
                        trim(parts[j]),
                        filename@,
                    )),
            decreases pieces.len() - k,
        {
            let t = trimmed_chars(pieces[k].as_slice());
            let ts = string_from_chars(t.as_slice());
            proof {
                assert(parts[k as int] == pieces@[k as int]@);
            }
            if t.len() > 0 && glob_match(ts.as_str(), filename) {
                return true;
            }
            k += 1;
        }
        false
    }

    /// The engine a search over files uses: the query (and replacement), its
    /// case sensitivity, and regex or normal mode; the other settings as
    /// `SearchEngine::new` has them.
    pub fn engine_for(query: &str, replacement: &str, case_sensitive: bool, use_regex: bool) -> (res: SearchEngine)
        ensures
            res.query@ == query@,
            res.replace_text@ == replacement@,
            res.case_sensitive == case_sensitive,
            res.use_regex == use_regex,
            res.search_mode == if use_regex {
                SearchMode::Regex
            } else {
                SearchMode::Normal
            },
            !res.whole_word,
            res.wrap_around,
    {
        let mut engine = SearchEngine::new();
        engine.query = String::from_str(query);
        engine.replace_text = String::from_str(replacement);
        engine.case_sensitive = case_sensitive;
        engine.use_regex = use_regex;
        engine.search_mode = if use_regex {
            SearchMode::Regex
        } else {
            SearchMode::Normal
        };
        engine
    }

    /// The result for one file's text: its matches, if there are any.
    pub fn search_content(engine: &SearchEngine, path: String, content: &str) -> (res: Option<FileSearchResult>)
        ensures
            match res {
                Some(r) => r.path == path && r.matches@.len() > 0 && (engine.searchable()
                    ==> crate::search::engine::reports_all(
                    r.matches@,
                    crate::bytes::bytes_of(content@),
                    crate::search::regex_calls::regex_find_iter_spans(engine.pattern()->Some_0, content@),
                )),
                None => !engine.searchable() || crate::search::regex_calls::regex_find_iter_spans(
                    engine.pattern()->Some_0,
                    content@,
                ).len() == 0,
            },
    {
        let matches = engine.find_all(content);
        if matches.len() > 0 {
            Some(FileSearchResult { path, matches })
        } else {
            None
        }
    }

    /// The new text of one file and the number of replacements, if there
    /// were any (see `SearchEngine::replace_all`).
    pub fn replace_content(engine: &SearchEngine, content: &str) -> (res: Option<(String, usize)>)
        ensures
            match res {
                Some((t, n)) => n > 0 && engine.searchable() && n == crate::search::regex_calls::regex_find_iter_spans(
                    engine.pattern()->Some_0,
                    content@,
                ).len() && (engine.search_mode == SearchMode::Regex ==> t@
                    == crate::search::regex_calls::regex_replace_all_expanded(
                    engine.pattern()->Some_0,
                    content@,
                    engine.replacement(),
                )) && (engine.search_mode != SearchMode::Regex ==> crate::bytes::bytes_of(t@)
                    == crate::search::regex_calls::splice_from(
                    crate::bytes::bytes_of(content@),
                    crate::search::regex_calls::regex_find_iter_spans(engine.pattern()->Some_0, content@),
                    crate::bytes::bytes_of(engine.replacement()),
                    0,
                    0,
                )),
                None => !engine.searchable() || crate::search::regex_calls::regex_find_iter_spans(
                    engine.pattern()->Some_0,
                    content@,
                ).len() == 0,
            },
    {
        let (new_content, count) = engine.replace_all(content);
        if count > 0 {
            Some((new_content, count))
        } else {
            None
        }
    }
}

} // verus!
