//! The message one instance of the editor sends another.
use vstd::prelude::*;

verus! {

/// The files and options a second instance hands over to the running one.
#[derive(Debug, Clone)]
pub struct InstanceMessage {
    /// Files to open.
    pub files: Vec<String>,
    /// Line to go to.
    pub goto_line: Option<usize>,
    /// Column to go to.
    pub goto_column: Option<usize>,
    /// Encoding to use instead of the detected one.
    pub encoding: Option<String>,
    /// Language to use instead of the detected one.
    pub language: Option<String>,
    /// Whether to open the files read-only.
    pub read_only: bool,
    /// Whether to open the files in a new tab group.
    pub new_tab_group: bool,
}

} // verus!
