//! Scintilla helpers that compute: colours and the lexer for a file
//! extension.
use vstd::prelude::*;
use crate::text::{str_chars, str_eq, string_from_chars};

verus! {

/// A Scintilla colour `0x00BBGGRR`.
pub fn rgb(r: u8, g: u8, b: u8) -> (res: i32)
    ensures
        res == r + g * 256 + b * 65536,
{
    r as i32 + (g as i32) * 256 + (b as i32) * 65536
}

/// A character with ASCII upper case turned to lower case.
pub open spec fn ascii_lower(c: char) -> char {
    if 'A' <= c <= 'Z' {
        ((c as u32) + 32) as char
    } else {
        c
    }
}

/// `str::to_ascii_lowercase`.
pub open spec fn ascii_lowercase(s: Seq<char>) -> Seq<char> {
    Seq::new(s.len(), |i: int| ascii_lower(s[i]))
}

/// The Scintilla lexer for a lower-case file extension.
pub open spec fn lexer_of(e: Seq<char>) -> Option<Seq<char>> {
    if e == "rs"@ {
        Some("rust"@)
    } else if e == "c"@ || e == "h"@ {
        Some("cpp"@)
    } else if e == "cc"@ || e == "cpp"@ || e == "cxx"@ || e == "hpp"@ || e == "hxx"@ || e == "hh"@ {
        Some("cpp"@)
    } else if e == "cs"@ {
        Some("cpp"@)
    } else if e == "java"@ {
        Some("cpp"@)
    } else if e == "js"@ || e == "jsx"@ || e == "ts"@ || e == "tsx"@ || e == "mjs"@ || e == "cjs"@ {
        Some("cpp"@)
    } else if e == "py"@ || e == "pyw"@ {
        Some("python"@)
    } else if e == "rb"@ {
        Some("ruby"@)
    } else if e == "pl"@ || e == "pm"@ {
        Some("perl"@)
    } else if e == "html"@ || e == "htm"@ || e == "xhtml"@ {
        Some("hypertext"@)
    } else if e == "xml"@ || e == "xsl"@ || e == "xslt"@ || e == "svg"@ || e == "xaml"@ || e == "csproj"@ || e == "vcxproj"@ {
        Some("xml"@)
    } else if e == "css"@ || e == "scss"@ || e == "less"@ {
        Some("css"@)
    } else if e == "sql"@ {
        Some("sql"@)
    } else if e == "sh"@ || e == "bash"@ || e == "zsh"@ {
        Some("bash"@)
    } else if e == "bat"@ || e == "cmd"@ {
        Some("batch"@)
    } else if e == "ps1"@ || e == "psm1"@ {
        Some("powershell"@)
    } else if e == "md"@ || e == "markdown"@ {
        Some("markdown"@)
    } else if e == "json"@ {
        Some("json"@)
    } else if e == "yaml"@ || e == "yml"@ {
        Some("yaml"@)
    } else if e == "toml"@ {
        Some("toml"@)
    } else if e == "lua"@ {
        Some("lua"@)
    } else if e == "php"@ {
        Some("phpscript"@)
    } else if e == "r"@ {
        Some("r"@)
    } else if e == "cmake"@ {
        Some("cmake"@)
    } else if e == "makefile"@ || e == "mk"@ {
        Some("makefile"@)
    } else if e == "diff"@ || e == "patch"@ {
        Some("diff"@)
    } else if e == "ini"@ || e == "cfg"@ || e == "conf"@ || e == "properties"@ {
        Some("props"@)
    } else if e == "tex"@ || e == "latex"@ {
        Some("latex"@)
    } else if e == "asm"@ || e == "s"@ {
        Some("asm"@)
    } else if e == "pas"@ || e == "pp"@ || e == "dpr"@ {
        Some("pascal"@)
    } else if e == "tcl"@ {
        Some("tcl"@)
    } else if e == "vb"@ || e == "vbs"@ {
        Some("vb"@)
    } else {
        None
    }
}

fn lower_char(c: char) -> (res: char)
    ensures
        res == ascii_lower(c),
{
    if 'A' <= c && c <= 'Z' {
        crate::num::char_from_ascii(c as u32 + 32)
    } else {
        c
    }
}

/// A text with ASCII upper case turned to lower case.
pub fn to_ascii_lowercase(s: &str) -> (res: String)
    ensures
        res@ == ascii_lowercase(s@),
{
    let cs = str_chars(s);
    let mut out: Vec<char> = Vec::new();
    let mut i: usize = 0;
    while i < cs.len()
        invariant
            i <= cs@.len(),
            cs@ == s@,
            out@ == ascii_lowercase(cs@.take(i as int)),
        decreases cs.len() - i,
    {
        out.push(lower_char(cs[i]));
        proof {
            assert(ascii_lowercase(cs@.take(i as int + 1)) == ascii_lowercase(cs@.take(i as int)).push(
                ascii_lower(cs@[i as int]),
            ));
        }
        i += 1;
    }
    proof {
        assert(cs@.take(cs@.len() as int) == cs@);
    }
    string_from_chars(out.as_slice())
}

/// The Scintilla lexer for a file extension, whatever its ASCII case.
pub fn lexer_for_extension(ext: &str) -> (res: Option<&'static str>)
    ensures
        match res {
            Some(l) => lexer_of(ascii_lowercase(ext@)) == Some(l@),
            None => lexer_of(ascii_lowercase(ext@)) is None,
        },
{
    let lower = to_ascii_lowercase(ext);
    let e = lower.as_str();
    if str_eq(e, "rs") {
        Some("rust")
    } else if str_eq(e, "c") || str_eq(e, "h") {
        Some("cpp")
    } else if str_eq(e, "cc") || str_eq(e, "cpp") || str_eq(e, "cxx") || str_eq(e, "hpp") || str_eq(e, "hxx") || str_eq(e, "hh") {
        Some("cpp")
    } else if str_eq(e, "cs") {
        Some("cpp")
    } else if str_eq(e, "java") {
        Some("cpp")
    } else if str_eq(e, "js") || str_eq(e, "jsx") || str_eq(e, "ts") || str_eq(e, "tsx") || str_eq(e, "mjs") || str_eq(e, "cjs") {
        Some("cpp")
    } else if str_eq(e, "py") || str_eq(e, "pyw") {
        Some("python")
    } else if str_eq(e, "rb") {
        Some("ruby")
    } else if str_eq(e, "pl") || str_eq(e, "pm") {
        Some("perl")
    } else if str_eq(e, "html") || str_eq(e, "htm") || str_eq(e, "xhtml") {
        Some("hypertext")
    } else if str_eq(e, "xml") || str_eq(e, "xsl") || str_eq(e, "xslt") || str_eq(e, "svg") || str_eq(e, "xaml") || str_eq(e, "csproj") || str_eq(e, "vcxproj") {
        Some("xml")
    } else if str_eq(e, "css") || str_eq(e, "scss") || str_eq(e, "less") {
        Some("css")
    } else if str_eq(e, "sql") {
        Some("sql")
    } else if str_eq(e, "sh") || str_eq(e, "bash") || str_eq(e, "zsh") {
        Some("bash")
    } else if str_eq(e, "bat") || str_eq(e, "cmd") {
        Some("batch")
    } else if str_eq(e, "ps1") || str_eq(e, "psm1") {
        Some("powershell")
    } else if str_eq(e, "md") || str_eq(e, "markdown") {
        Some("markdown")
    } else if str_eq(e, "json") {
        Some("json")
    } else if str_eq(e, "yaml") || str_eq(e, "yml") {
        Some("yaml")
    } else if str_eq(e, "toml") {
        Some("toml")
    } else if str_eq(e, "lua") {
        Some("lua")
    } else if str_eq(e, "php") {
        Some("phpscript")
    } else if str_eq(e, "r") {
        Some("r")
    } else if str_eq(e, "cmake") {
        Some("cmake")
    } else if str_eq(e, "makefile") || str_eq(e, "mk") {
        Some("makefile")
    } else if str_eq(e, "diff") || str_eq(e, "patch") {
        Some("diff")
    } else if str_eq(e, "ini") || str_eq(e, "cfg") || str_eq(e, "conf") || str_eq(e, "properties") {
        Some("props")
    } else if str_eq(e, "tex") || str_eq(e, "latex") {
        Some("latex")
    } else if str_eq(e, "asm") || str_eq(e, "s") {
        Some("asm")
    } else if str_eq(e, "pas") || str_eq(e, "pp") || str_eq(e, "dpr") {
        Some("pascal")
    } else if str_eq(e, "tcl") {
        Some("tcl")
    } else if str_eq(e, "vb") || str_eq(e, "vbs") {
        Some("vb")
    } else {
        None
    }
}

} // verus!
