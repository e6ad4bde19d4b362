//! What the editor widget reports back to the window after a frame.
use vstd::prelude::*;

verus! {

/// The action picked from the editor's context menu; `Nothing` when none was.
#[derive(Debug, Clone, Copy, PartialEq, Eq, Structural)]
pub enum ContextMenuAction {
    Nothing,
    ToggleComment,
    Uppercase,
    Lowercase,
}

/// The context-menu action and the caret's line and column.
#[derive(Debug, Clone, Copy)]
pub struct EditorWidgetOutput {
    pub ctx_action: ContextMenuAction,
    pub cursor_line: usize,
    pub cursor_col: usize,
}

} // verus!
