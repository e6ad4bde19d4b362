//! File associations and context-menu entries for shell integration.
use vstd::prelude::*;

verus! {

/// File type association for shell integration
#[derive(Debug, Clone, PartialEq)]
pub struct FileAssociation {
    /// File extension without dot (e.g., "txt", "rs", "json")
    pub extension: String,
    /// Human-readable description (e.g., "Rust Source File")
    pub description: String,
    /// Icon index in the executable's resource table
    pub icon_index: u32,
}

/// Context menu entry configuration
#[derive(Debug, Clone, PartialEq)]
pub struct ContextMenuEntry {
    /// Registry/desktop key name
    pub id: String,
    /// Display text in context menu
    pub label: String,
    /// Whether this entry applies to all files or specific extensions
    pub scope: ContextMenuScope,
}

#[derive(Debug, Clone, PartialEq)]
pub enum ContextMenuScope {
    /// Show for all file types (via * or Directory\\Background)
    AllFiles,
    /// Show for directories (right-click on folder)
    Directories,
    /// Show for specific extensions only
    Extensions(Vec<String>),
}

/// The default associations: extension, description and icon index.
pub open spec fn association_table() -> Seq<(Seq<char>, Seq<char>, u32)> {
    seq![
        ("txt"@, "Text File"@, 1u32),
        ("log"@, "Log File"@, 1u32),
        ("cfg"@, "Configuration File"@, 1u32),
        ("conf"@, "Configuration File"@, 1u32),
        ("ini"@, "INI Configuration File"@, 1u32),
        ("html"@, "HTML File"@, 2u32),
        ("htm"@, "HTML File"@, 2u32),
        ("css"@, "CSS Stylesheet"@, 2u32),
        ("js"@, "JavaScript File"@, 2u32),
        ("ts"@, "TypeScript File"@, 2u32),
        ("jsx"@, "JSX File"@, 2u32),
        ("tsx"@, "TSX File"@, 2u32),
        ("json"@, "JSON File"@, 2u32),
        ("xml"@, "XML File"@, 2u32),
        ("yaml"@, "YAML File"@, 2u32),
        ("yml"@, "YAML File"@, 2u32),
        ("toml"@, "TOML File"@, 2u32),
        ("rs"@, "Rust Source File"@, 3u32),
        ("py"@, "Python Script"@, 3u32),
        ("rb"@, "Ruby Script"@, 3u32),
        ("go"@, "Go Source File"@, 3u32),
        ("java"@, "Java Source File"@, 3u32),
        ("kt"@, "Kotlin Source File"@, 3u32),
        ("c"@, "C Source File"@, 3u32),
        ("cpp"@, "C++ Source File"@, 3u32),
        ("h"@, "C/C++ Header File"@, 3u32),
        ("hpp"@, "C++ Header File"@, 3u32),
        ("cs"@, "C# Source File"@, 3u32),
        ("swift"@, "Swift Source File"@, 3u32),
        ("zig"@, "Zig Source File"@, 3u32),
        ("lua"@, "Lua Script"@, 3u32),
        ("pl"@, "Perl Script"@, 3u32),
        ("php"@, "PHP Script"@, 3u32),
        ("r"@, "R Script"@, 3u32),
        ("scala"@, "Scala Source File"@, 3u32),
        ("sh"@, "Shell Script"@, 4u32),
        ("bash"@, "Bash Script"@, 4u32),
        ("zsh"@, "Zsh Script"@, 4u32),
        ("bat"@, "Batch File"@, 4u32),
        ("cmd"@, "Command Script"@, 4u32),
        ("ps1"@, "PowerShell Script"@, 4u32),
        ("csv"@, "CSV File"@, 5u32),
        ("tsv"@, "Tab-Separated Values"@, 5u32),
        ("sql"@, "SQL File"@, 5u32),
        ("md"@, "Markdown File"@, 6u32),
        ("markdown"@, "Markdown File"@, 6u32),
        ("rst"@, "reStructuredText File"@, 6u32),
        ("tex"@, "LaTeX File"@, 6u32),
        ("dockerfile"@, "Dockerfile"@, 7u32),
        ("makefile"@, "Makefile"@, 7u32),
        ("env"@, "Environment File"@, 7u32),
        ("gitignore"@, "Git Ignore File"@, 7u32),
        ("editorconfig"@, "EditorConfig File"@, 7u32)
    ]
}

fn association(ext: &str, desc: &str, icon: u32) -> (res: FileAssociation)
    ensures
        res.extension@ == ext@,
        res.description@ == desc@,
        res.icon_index == icon,
{
    FileAssociation {
        extension: String::from_str(ext),
        description: String::from_str(desc),
        icon_index: icon,
    }
}

/// Common file extensions for a text editor targeting programmers.
#[verifier::rlimit(50)]
pub fn default_associations() -> (res: Vec<FileAssociation>)
    ensures
        res@.len() == association_table().len(),
        forall|i: int|
            0 <= i < res@.len() ==> (#[trigger] res@[i]).extension@ == association_table()[i].0
                && res@[i].description@ == association_table()[i].1 && res@[i].icon_index
                == association_table()[i].2,
{
    let mut v: Vec<FileAssociation> = Vec::new();
    v.push(association("txt", "Text File", 1));
    v.push(association("log", "Log File", 1));
    v.push(association("cfg", "Configuration File", 1));
    v.push(association("conf", "Configuration File", 1));
    v.push(association("ini", "INI Configuration File", 1));
    v.push(association("html", "HTML File", 2));
    v.push(association("htm", "HTML File", 2));
    v.push(association("css", "CSS Stylesheet", 2));
    v.push(association("js", "JavaScript File", 2));
    v.push(association("ts", "TypeScript File", 2));
    v.push(association("jsx", "JSX File", 2));
    v.push(association("tsx", "TSX File", 2));
    v.push(association("json", "JSON File", 2));
    v.push(association("xml", "XML File", 2));
    v.push(association("yaml", "YAML File", 2));
    v.push(association("yml", "YAML File", 2));
    v.push(association("toml", "TOML File", 2));
    v.push(association("rs", "Rust Source File", 3));
    v.push(association("py", "Python Script", 3));
    v.push(association("rb", "Ruby Script", 3));
    v.push(association("go", "Go Source File", 3));
    v.push(association("java", "Java Source File", 3));
    v.push(association("kt", "Kotlin Source File", 3));
    v.push(association("c", "C Source File", 3));
    v.push(association("cpp", "C++ Source File", 3));
    v.push(association("h", "C/C++ Header File", 3));
    v.push(association("hpp", "C++ Header File", 3));
    v.push(association("cs", "C# Source File", 3));
    v.push(association("swift", "Swift Source File", 3));
    v.push(association("zig", "Zig Source File", 3));
    v.push(association("lua", "Lua Script", 3));
    v.push(association("pl", "Perl Script", 3));
    v.push(association("php", "PHP Script", 3));
    v.push(association("r", "R Script", 3));
    v.push(association("scala", "Scala Source File", 3));
    v.push(association("sh", "Shell Script", 4));
    v.push(association("bash", "Bash Script", 4));
    v.push(association("zsh", "Zsh Script", 4));
    v.push(association("bat", "Batch File", 4));
    v.push(association("cmd", "Command Script", 4));
    v.push(association("ps1", "PowerShell Script", 4));
    v.push(association("csv", "CSV File", 5));
    v.push(association("tsv", "Tab-Separated Values", 5));
    v.push(association("sql", "SQL File", 5));
    v.push(association("md", "Markdown File", 6));
    v.push(association("markdown", "Markdown File", 6));
    v.push(association("rst", "reStructuredText File", 6));
    v.push(association("tex", "LaTeX File", 6));
    v.push(association("dockerfile", "Dockerfile", 7));
    v.push(association("makefile", "Makefile", 7));
    v.push(association("env", "Environment File", 7));
    v.push(association("gitignore", "Git Ignore File", 7));
    v.push(association("editorconfig", "EditorConfig File", 7));
    v
}

/// The default context-menu entries: open a file, open a folder.
pub fn default_context_menu_entries(exe_path: &str) -> (res: Vec<ContextMenuEntry>)
    ensures
        res@.len() == 2,
        res@[0].id@ == "NotepadPPP.OpenFile"@,
        res@[0].label@ == "Open with Notepad+++"@,
        res@[0].scope == ContextMenuScope::AllFiles,
        res@[1].id@ == "NotepadPPP.OpenFolder"@,
        res@[1].label@ == "Open folder in Notepad+++"@,
        res@[1].scope == ContextMenuScope::Directories,
{
    let _ = exe_path;
    let mut v: Vec<ContextMenuEntry> = Vec::new();
    v.push(
        ContextMenuEntry {
            id: String::from_str("NotepadPPP.OpenFile"),
            label: String::from_str("Open with Notepad+++"),
            scope: ContextMenuScope::AllFiles,
        },
    );
    v.push(
        ContextMenuEntry {
            id: String::from_str("NotepadPPP.OpenFolder"),
            label: String::from_str("Open folder in Notepad+++"),
            scope: ContextMenuScope::Directories,
        },
    );
    v
}

} // verus!
