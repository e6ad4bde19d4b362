//! Size categories of files and the features each one turns off.
use vstd::prelude::*;

verus! {

/// Files of at least this many bytes are large: no syntax highlighting, and
/// a bounded undo history.
pub const LARGE_FILE_THRESHOLD: usize = 10485760;

/// Files of at least this many bytes are very large: no minimap and no
/// function list either.
pub const VERY_LARGE_FILE_THRESHOLD: usize = 104857600;

/// The undo history limit of a large file.
pub const LARGE_FILE_UNDO_LIMIT: usize = 100;

/// A file's size and the features its size turns off.
#[derive(Debug, Clone, Copy)]
pub struct LargeFileInfo {
    pub file_size: u64,
    pub is_large: bool,
    pub is_very_large: bool,
    pub syntax_disabled: bool,
    pub minimap_disabled: bool,
    pub function_list_disabled: bool,
    pub undo_limit: Option<usize>,
}

impl LargeFileInfo {
    /// What `from_size` gives for `size` (the size taken as a `usize`).
    pub open spec fn for_size(size: u64) -> Self {
        let large = (size as usize) >= LARGE_FILE_THRESHOLD;
        let very = (size as usize) >= VERY_LARGE_FILE_THRESHOLD;
        LargeFileInfo {
            file_size: size,
            is_large: large,
            is_very_large: very,
            syntax_disabled: large,
            minimap_disabled: very,
            function_list_disabled: very,
            undo_limit: if large {
                Some(LARGE_FILE_UNDO_LIMIT)
            } else {
                None
            },
        }
    }

    /// The categories of a file of `size` bytes.
    pub fn from_size(size: u64) -> (res: Self)
        ensures
            res == Self::for_size(size),
    {
        #[verifier::truncate]
        let s = size as usize;
        let is_large = s >= LARGE_FILE_THRESHOLD;
        let is_very_large = s >= VERY_LARGE_FILE_THRESHOLD;
        LargeFileInfo {
            file_size: size,
            is_large,
            is_very_large,
            syntax_disabled: is_large,
            minimap_disabled: is_very_large,
            function_list_disabled: is_very_large,
            undo_limit: if is_large {
                Some(LARGE_FILE_UNDO_LIMIT)
            } else {
                None
            },
        }
    }
}

impl Default for LargeFileInfo {
    fn default() -> (res: Self)
        ensures
            res == Self::for_size(0),
    {
        Self::from_size(0)
    }
}

} // verus!
