pub mod regex_calls;
pub mod engine;
pub mod history;
pub mod find_in_files;
