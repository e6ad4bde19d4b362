//! Comment syntax per language.
use vstd::prelude::*;
use crate::text::str_eq;

verus! {

/// The line comment prefix of a language, if it has one.
pub open spec fn line_prefix_of(l: Seq<char>) -> Option<Seq<char>> {
    if l == "Rust"@ || l == "Go"@ || l == "C"@ || l == "C++"@ || l == "Java"@ || l == "JavaScript"@ || l == "TypeScript"@ || l == "Kotlin"@ || l == "Scala"@ || l == "Swift"@ || l == "Zig"@ || l == "Objective-C"@ || l == "C#"@ || l == "Dart"@ {
        Some("//"@)
    } else
    if l == "Python"@ || l == "Ruby"@ || l == "Perl"@ || l == "R"@ || l == "Shell"@ || l == "Bash"@ || l == "PowerShell"@ || l == "YAML"@ || l == "TOML"@ || l == "Makefile"@ || l == "Dockerfile"@ || l == "CoffeeScript"@ {
        Some("#"@)
    } else
    if l == "Lua"@ || l == "SQL"@ || l == "Haskell"@ {
        Some("--"@)
    } else
    if l == "Lisp"@ || l == "Clojure"@ || l == "Scheme"@ {
        Some(";"@)
    } else {
        None
    }
}

/// The block comment delimiters of a language, if it has them.
pub open spec fn block_delims_of(l: Seq<char>) -> Option<(Seq<char>, Seq<char>)> {
    if l == "C"@ || l == "C++"@ || l == "Java"@ || l == "JavaScript"@ || l == "TypeScript"@ || l == "Rust"@ || l == "Go"@ || l == "Kotlin"@ || l == "Scala"@ || l == "Swift"@ || l == "C#"@ || l == "Dart"@ || l == "CSS"@ || l == "SCSS"@ || l == "LESS"@ || l == "Objective-C"@ {
        Some(("/*"@, "*/"@))
    } else
    if l == "HTML"@ || l == "XML"@ {
        Some(("<!--"@, "-->"@))
    } else
    if l == "Python"@ {
        Some(("\"\"\""@, "\"\"\""@))
    } else
    if l == "Lua"@ {
        Some(("--[["@, "]]"@))
    } else {
        None
    }
}

/// The line comment prefix for a language.
pub fn line_comment_prefix(language: &str) -> (res: Option<&'static str>)
    ensures
        match line_prefix_of(language@) {
            Some(p) => res is Some && res->0@ == p,
            None => res is None,
        },
{
    let ghost l = language@;
    if str_eq(language, "Rust") || str_eq(language, "Go") || str_eq(language, "C") || str_eq(language, "C++") || str_eq(language, "Java") || str_eq(language, "JavaScript") || str_eq(language, "TypeScript") || str_eq(language, "Kotlin") || str_eq(language, "Scala") || str_eq(language, "Swift") || str_eq(language, "Zig") || str_eq(language, "Objective-C") || str_eq(language, "C#") || str_eq(language, "Dart") {
        Some("//")
    } else
    if str_eq(language, "Python") || str_eq(language, "Ruby") || str_eq(language, "Perl") || str_eq(language, "R") || str_eq(language, "Shell") || str_eq(language, "Bash") || str_eq(language, "PowerShell") || str_eq(language, "YAML") || str_eq(language, "TOML") || str_eq(language, "Makefile") || str_eq(language, "Dockerfile") || str_eq(language, "CoffeeScript") {
        Some("#")
    } else
    if str_eq(language, "Lua") || str_eq(language, "SQL") || str_eq(language, "Haskell") {
        Some("--")
    } else
    if str_eq(language, "Lisp") || str_eq(language, "Clojure") || str_eq(language, "Scheme") {
        Some(";")
    } else {
        None
    }
}

/// The block comment delimiters for a language.
pub fn block_comment_delimiters(language: &str) -> (res: Option<(&'static str, &'static str)>)
    ensures
        match block_delims_of(language@) {
            Some((a, b)) => match res {
                Some((x, y)) => x@ == a && y@ == b,
                None => false,
            },
            None => res is None,
        },
{
    let ghost l = language@;
    if str_eq(language, "C") || str_eq(language, "C++") || str_eq(language, "Java") || str_eq(language, "JavaScript") || str_eq(language, "TypeScript") || str_eq(language, "Rust") || str_eq(language, "Go") || str_eq(language, "Kotlin") || str_eq(language, "Scala") || str_eq(language, "Swift") || str_eq(language, "C#") || str_eq(language, "Dart") || str_eq(language, "CSS") || str_eq(language, "SCSS") || str_eq(language, "LESS") || str_eq(language, "Objective-C") {
        Some(("/*", "*/"))
    } else
    if str_eq(language, "HTML") || str_eq(language, "XML") {
        Some(("<!--", "-->"))
    } else
    if str_eq(language, "Python") {
        Some(("\"\"\"", "\"\"\""))
    } else
    if str_eq(language, "Lua") {
        Some(("--[[", "]]"))
    } else {
        None
    }
}

} // verus!
