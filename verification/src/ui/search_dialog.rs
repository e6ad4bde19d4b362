//! The state of the search bar and what it asks the window to do.
use vstd::prelude::*;
use crate::search::engine::{SearchEngine, SearchMode};

verus! {

/// What the search bar asks for after a frame.
#[derive(Debug, Clone, Copy, PartialEq, Eq, Structural)]
pub enum SearchAction {
    Nothing,
    Close,
    FindNext,
    FindPrev,
    ReplaceNext,
    ReplaceAll,
    /// The query or an option changed: search again.
    QueryChanged,
}

/// The fields of the search bar.
pub struct SearchBarState {
    pub query: String,
    pub replace_text: String,
    pub case_sensitive: bool,
    pub whole_word: bool,
    pub use_regex: bool,
    /// Whether the query field takes the focus on the next frame.
    pub request_focus: bool,
}

impl Default for SearchBarState {
    fn default() -> (res: Self)
        ensures
            res.query@ == Seq::<char>::empty(),
            res.replace_text@ == Seq::<char>::empty(),
            !res.case_sensitive,
            !res.whole_word,
            !res.use_regex,
            !res.request_focus,
    {
        SearchBarState {
            query: String::new(),
            replace_text: String::new(),
            case_sensitive: false,
            whole_word: false,
            use_regex: false,
            request_focus: false,
        }
    }
}

impl SearchBarState {
    /// Copies the bar's query, replacement and options into the engine; a
    /// regular-expression query sets regex mode, any other normal mode.
    pub fn apply_to_engine(&self, engine: &mut SearchEngine)
        ensures
            final(engine).query@ == self.query@,
            final(engine).replace_text@ == self.replace_text@,
            final(engine).case_sensitive == self.case_sensitive,
            final(engine).whole_word == self.whole_word,
            final(engine).use_regex == self.use_regex,
            final(engine).search_mode == if self.use_regex {
                SearchMode::Regex
            } else {
                SearchMode::Normal
            },
            final(engine).wrap_around == old(engine).wrap_around,
    {
        engine.query = self.query.clone();
        engine.replace_text = self.replace_text.clone();
        engine.case_sensitive = self.case_sensitive;
        engine.whole_word = self.whole_word;
        engine.use_regex = self.use_regex;
        engine.search_mode = if self.use_regex {
            SearchMode::Regex
        } else {
            SearchMode::Normal
        };
    }
}

} // verus!
