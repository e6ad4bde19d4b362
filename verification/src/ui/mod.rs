pub mod editor_widget;
pub mod search_dialog;
pub mod split_view;
