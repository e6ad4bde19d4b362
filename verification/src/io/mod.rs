pub mod line_ending_detect;
pub mod file_io;
pub mod large_file;
pub mod keybindings;
pub mod recent_files;
pub mod session;
