pub mod multi_cursor;
pub mod bookmarks;
pub mod autoclose;
pub mod comments;
pub mod brackets;
pub mod marks;
pub mod indent;
pub mod column_select;
pub mod line_ops;
pub mod cursor;
pub mod document;
pub mod text_transforms;
pub mod folding;
pub mod macros;
pub mod function_list;
pub mod rope_calls;
pub mod buffer;
pub mod tab_manager;
