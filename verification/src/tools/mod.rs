pub mod diff_tool;
pub mod csv_viewer;
pub mod hex_viewer;
pub mod hash_tools;
pub mod export;
pub mod mime_tools;
pub mod disasm;
pub mod json_tools;
pub mod listing;
pub mod objfile;
