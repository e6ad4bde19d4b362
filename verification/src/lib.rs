pub mod editor;
pub mod text;
pub mod bytes;
pub mod num;
pub mod platform;
pub mod lineset;
pub mod io;
pub mod tools;
pub mod search;
pub mod native;
pub mod ui;
pub mod unicode;
