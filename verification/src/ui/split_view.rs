//! How a split editor divides the window.
use vstd::prelude::*;

verus! {

/// Side by side (`Horizontal`) or one above the other (`Vertical`).
#[derive(Clone, Copy, Debug, PartialEq, Eq, Structural)]
pub enum SplitOrientation {
    Horizontal,
    Vertical,
}

} // verus!
