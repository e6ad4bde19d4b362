//! Linux shell integration: `.desktop` file and `xdg-mime` registration script.
use vstd::prelude::*;
use crate::platform::FileAssociation;
use crate::text::{join, join_chars, seqs_of, str_chars, str_eq, string_from_chars};

verus! {

pub struct LinuxIntegration;

/// The MIME type registered for a file extension.
pub open spec fn mime_of(e: Seq<char>) -> Seq<char> {
    if e == "txt"@ || e == "log"@ || e == "cfg"@ || e == "conf"@ || e == "ini"@ || e == "env"@ || e == "gitignore"@ || e == "editorconfig"@ {
        "text/plain"@
    } else
    if e == "html"@ || e == "htm"@ {
        "text/html"@
    } else
    if e == "css"@ {
        "text/css"@
    } else
    if e == "js"@ {
        "application/javascript"@
    } else
    if e == "ts"@ {
        "text/typescript"@
    } else
    if e == "jsx"@ || e == "tsx"@ {
        "text/javascript"@
    } else
    if e == "json"@ {
        "application/json"@
    } else
    if e == "xml"@ {
        "application/xml"@
    } else
    if e == "yaml"@ || e == "yml"@ {
        "application/x-yaml"@
    } else
    if e == "toml"@ {
        "application/toml"@
    } else
    if e == "rs"@ {
        "text/x-rust"@
    } else
    if e == "py"@ {
        "text/x-python"@
    } else
    if e == "rb"@ {
        "text/x-ruby"@
    } else
    if e == "go"@ {
        "text/x-go"@
    } else
    if e == "java"@ {
        "text/x-java"@
    } else
    if e == "kt"@ {
        "text/x-kotlin"@
    } else
    if e == "c"@ {
        "text/x-csrc"@
    } else
    if e == "cpp"@ {
        "text/x-c++src"@
    } else
    if e == "h"@ || e == "hpp"@ {
        "text/x-chdr"@
    } else
    if e == "cs"@ {
        "text/x-csharp"@
    } else
    if e == "swift"@ {
        "text/x-swift"@
    } else
    if e == "sh"@ || e == "bash"@ || e == "zsh"@ {
        "application/x-shellscript"@
    } else
    if e == "bat"@ || e == "cmd"@ {
        "application/x-bat"@
    } else
    if e == "ps1"@ {
        "application/x-powershell"@
    } else
    if e == "sql"@ {
        "application/sql"@
    } else
    if e == "csv"@ {
        "text/csv"@
    } else
    if e == "tsv"@ {
        "text/tab-separated-values"@
    } else
    if e == "md"@ || e == "markdown"@ {
        "text/markdown"@
    } else
    if e == "tex"@ {
        "text/x-tex"@
    } else
    if e == "rst"@ {
        "text/x-rst"@
    } else
    if e == "dockerfile"@ {
        "text/x-dockerfile"@
    } else
    if e == "makefile"@ {
        "text/x-makefile"@
    } else {
        "text/x-"@ + e
    }
}

/// Maps a file extension to its MIME type.
pub fn extension_to_mime(ext: &str) -> (res: String)
    ensures
        res@ == mime_of(ext@),
{
    let ghost e = ext@;
    if str_eq(ext, "txt") || str_eq(ext, "log") || str_eq(ext, "cfg") || str_eq(ext, "conf") || str_eq(ext, "ini") || str_eq(ext, "env") || str_eq(ext, "gitignore") || str_eq(ext, "editorconfig") {
        String::from_str("text/plain")
    } else
    if str_eq(ext, "html") || str_eq(ext, "htm") {
        String::from_str("text/html")
    } else
    if str_eq(ext, "css") {
        String::from_str("text/css")
    } else
    if str_eq(ext, "js") {
        String::from_str("application/javascript")
    } else
    if str_eq(ext, "ts") {
        String::from_str("text/typescript")
    } else
    if str_eq(ext, "jsx") || str_eq(ext, "tsx") {
        String::from_str("text/javascript")
    } else
    if str_eq(ext, "json") {
        String::from_str("application/json")
    } else
    if str_eq(ext, "xml") {
        String::from_str("application/xml")
    } else
    if str_eq(ext, "yaml") || str_eq(ext, "yml") {
        String::from_str("application/x-yaml")
    } else
    if str_eq(ext, "toml") {
        String::from_str("application/toml")
    } else
    if str_eq(ext, "rs") {
        String::from_str("text/x-rust")
    } else
    if str_eq(ext, "py") {
        String::from_str("text/x-python")
    } else
    if str_eq(ext, "rb") {
        String::from_str("text/x-ruby")
    } else
    if str_eq(ext, "go") {
        String::from_str("text/x-go")
    } else
    if str_eq(ext, "java") {
        String::from_str("text/x-java")
    } else
    if str_eq(ext, "kt") {
        String::from_str("text/x-kotlin")
    } else
    if str_eq(ext, "c") {
        String::from_str("text/x-csrc")
    } else
    if str_eq(ext, "cpp") {
        String::from_str("text/x-c++src")
    } else
    if str_eq(ext, "h") || str_eq(ext, "hpp") {
        String::from_str("text/x-chdr")
    } else
    if str_eq(ext, "cs") {
        String::from_str("text/x-csharp")
    } else
    if str_eq(ext, "swift") {
        String::from_str("text/x-swift")
    } else
    if str_eq(ext, "sh") || str_eq(ext, "bash") || str_eq(ext, "zsh") {
        String::from_str("application/x-shellscript")
    } else
    if str_eq(ext, "bat") || str_eq(ext, "cmd") {
        String::from_str("application/x-bat")
    } else
    if str_eq(ext, "ps1") {
        String::from_str("application/x-powershell")
    } else
    if str_eq(ext, "sql") {
        String::from_str("application/sql")
    } else
    if str_eq(ext, "csv") {
        String::from_str("text/csv")
    } else
    if str_eq(ext, "tsv") {
        String::from_str("text/tab-separated-values")
    } else
    if str_eq(ext, "md") || str_eq(ext, "markdown") {
        String::from_str("text/markdown")
    } else
    if str_eq(ext, "tex") {
        String::from_str("text/x-tex")
    } else
    if str_eq(ext, "rst") {
        String::from_str("text/x-rst")
    } else
    if str_eq(ext, "dockerfile") {
        String::from_str("text/x-dockerfile")
    } else
    if str_eq(ext, "makefile") {
        String::from_str("text/x-makefile")
    } else {
        let mut r = String::from_str("text/x-");
        r.append(ext);
        r
    }
}

/// The MIME types of the associations, in order.
pub open spec fn mime_list(a: Seq<FileAssociation>) -> Seq<Seq<char>> {
    a.map_values(|x: FileAssociation| mime_of(x.extension@))
}

/// The `.desktop` file for the executable and associations.
pub open spec fn desktop_file(exe_path: Seq<char>, associations: Seq<FileAssociation>) -> Seq<char> {
    "[Desktop Entry]\nVersion=1.0\nType=Application\nName=Notepad+++\nComment=A fast, native text editor for programmers\nExec="@ + (exe_path) + " %F\nIcon=notepadppp\nTerminal=false\nCategories=TextEditor;Development;Utility;\nMimeType="@ + (join(mime_list(associations), ";"@)) + ";\nStartupNotify=true\nStartupWMClass=notepadppp\nKeywords=text;editor;code;programming;notepad;\n"@
}

/// The `xdg-mime` lines of the registration script.
pub open spec fn mime_lines(a: Seq<FileAssociation>) -> Seq<char>
    decreases a.len(),
{
    if a.len() == 0 {
        seq![]
    } else {
        mime_lines(a.drop_last()) + "xdg-mime default notepadppp.desktop "@ + mime_of(
            a.last().extension@,
        ) + "\n"@
    }
}

/// The registration script.
pub open spec fn mime_script(a: Seq<FileAssociation>) -> Seq<char> {
    "#!/bin/bash\n"@ + "# Notepad+++ MIME type registration\n\n"@ + "# Install .desktop file\n"@
        + "xdg-desktop-menu install --novendor notepadppp.desktop\n\n"@
        + "# Register MIME type associations\n"@ + mime_lines(a) + "\necho 'Notepad+++ registered successfully!'\n"@
}

impl LinuxIntegration {
    pub fn new() -> (res: Self) {
        LinuxIntegration
    }

    /// Generates the `.desktop` file content for XDG integration.
    pub fn generate_desktop_file(exe_path: &str, associations: &[FileAssociation]) -> (res: String)
        ensures
            res@ == desktop_file(exe_path@, associations@),
    {
        let mut mimes: Vec<Vec<char>> = Vec::new();
        let mut i: usize = 0;
        while i < associations.len()
            invariant
                i <= associations@.len(),
                seqs_of(mimes@) == mime_list(associations@).take(i as int),
            decreases associations.len() - i,
        {
            let m = extension_to_mime(associations[i].extension.as_str());
            let mc = str_chars(m.as_str());
            mimes.push(mc);
            assert(mime_list(associations@).take(i as int + 1) == mime_list(associations@).take(i as int).push(mime_of(associations@[i as int].extension@)));
            i += 1;
        }
        assert(mime_list(associations@).take(associations@.len() as int) == mime_list(associations@));
        let sep = str_chars(";");
        let jc = join_chars(&mimes, sep.as_slice());
        let joined = string_from_chars(jc.as_slice());
        let mut out = String::new();
        out.append("[Desktop Entry]\nVersion=1.0\nType=Application\nName=Notepad+++\nComment=A fast, native text editor for programmers\nExec=");
        out.append(exe_path);
        out.append(" %F\nIcon=notepadppp\nTerminal=false\nCategories=TextEditor;Development;Utility;\nMimeType=");
        out.append(joined.as_str());
        out.append(";\nStartupNotify=true\nStartupWMClass=notepadppp\nKeywords=text;editor;code;programming;notepad;\n");
        out
    }

    /// Generates the `xdg-mime` commands that register the associations.
    pub fn generate_mime_registration_script(associations: &[FileAssociation]) -> (res: String)
        ensures
            res@ == mime_script(associations@),
    {
        let mut script = String::from_str("#!/bin/bash\n");
        script.append("# Notepad+++ MIME type registration\n\n");
        script.append("# Install .desktop file\n");
        script.append("xdg-desktop-menu install --novendor notepadppp.desktop\n\n");
        script.append("# Register MIME type associations\n");
        let ghost head = script@;
        let mut i: usize = 0;
        while i < associations.len()
            invariant
                i <= associations@.len(),
                script@ == head + mime_lines(associations@.take(i as int)),
            decreases associations.len() - i,
        {
            let mime = extension_to_mime(associations[i].extension.as_str());
            script.append("xdg-mime default notepadppp.desktop ");
            script.append(mime.as_str());
            script.append("\n");
            assert(associations@.take(i as int + 1).drop_last() == associations@.take(i as int));
            i += 1;
        }
        assert(associations@.take(associations@.len() as int) == associations@);
        script.append("\necho 'Notepad+++ registered successfully!'\n");
        script
    }
}

} // verus!
