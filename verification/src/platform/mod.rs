pub mod cli;
pub mod linux;
pub mod macos;
pub mod windows;
pub mod single_instance;

pub use assoc::{
    default_associations, default_context_menu_entries, ContextMenuEntry, ContextMenuScope,
    FileAssociation,
};

mod assoc;

use vstd::prelude::*;

verus! {

/// Registering the editor with an operating system's shell: file
/// associations, context menu entries and default handlers, each reporting
/// a failure as a message.
pub trait PlatformIntegration {
    /// Registers the file associations for the executable.
    fn register_file_associations(&self, exe_path: &str, associations: &[FileAssociation]) -> Result<
        (),
        String,
    >;

    /// Removes the file associations.
    fn unregister_file_associations(&self, associations: &[FileAssociation]) -> Result<(), String>;

    /// Adds the context menu entries.
    fn register_context_menu(&self, exe_path: &str, entries: &[ContextMenuEntry]) -> Result<
        (),
        String,
    >;

    /// Removes the context menu entries.
    fn unregister_context_menu(&self, entries: &[ContextMenuEntry]) -> Result<(), String>;

    /// Makes the executable the default handler of the extensions.
    fn set_default_handler(&self, exe_path: &str, extensions: &[String]) -> Result<(), String>;

    /// Whether the shell integration is registered.
    fn is_registered(&self) -> bool;

    /// Where the editor keeps its configuration.
    fn config_dir(&self) -> String;
}

} // verus!
