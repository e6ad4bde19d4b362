//! Command-line arguments: options, `file:line[:col]` locations and help text.
use vstd::prelude::*;
use crate::num::{parse_usize, parse_usize_chars};
use crate::text::{str_chars, str_eq, strs_of};

verus! {

/// Parsed command-line arguments.
#[derive(Debug, Clone)]
pub struct CliArgs {
    /// Files to open
    pub files: Vec<String>,
    /// Go to specific line number after opening (1-based)
    pub goto_line: Option<usize>,
    /// Go to specific column after opening (1-based)
    pub goto_column: Option<usize>,
    /// Override encoding for opened files
    pub encoding: Option<String>,
    /// Override language/syntax for opened files
    pub language: Option<String>,
    /// Open in read-only mode
    pub read_only: bool,
    /// Start new instance instead of reusing existing
    pub new_instance: bool,
    /// Register shell integration and exit
    pub register_shell: bool,
    /// Unregister shell integration and exit
    pub unregister_shell: bool,
    /// Open files in a new tab group (split view)
    pub new_tab_group: bool,
    /// Print version and exit
    pub version: bool,
    /// Print help and exit
    pub help: bool,
}

/// The mathematical content of `CliArgs`.
pub struct CliModel {
    pub files: Seq<Seq<char>>,
    pub goto_line: Option<usize>,
    pub goto_column: Option<usize>,
    pub encoding: Option<Seq<char>>,
    pub language: Option<Seq<char>>,
    pub read_only: bool,
    pub new_instance: bool,
    pub register_shell: bool,
    pub unregister_shell: bool,
    pub new_tab_group: bool,
    pub version: bool,
    pub help: bool,
}

pub open spec fn opt_str(o: Option<String>) -> Option<Seq<char>> {
    match o {
        Some(s) => Some(s@),
        None => None,
    }
}

impl View for CliArgs {
    type V = CliModel;

    open spec fn view(&self) -> CliModel {
        CliModel {
            files: strs_of(self.files@),
            goto_line: self.goto_line,
            goto_column: self.goto_column,
            encoding: opt_str(self.encoding),
            language: opt_str(self.language),
            read_only: self.read_only,
            new_instance: self.new_instance,
            register_shell: self.register_shell,
            unregister_shell: self.unregister_shell,
            new_tab_group: self.new_tab_group,
            version: self.version,
            help: self.help,
        }
    }
}

/// No files, no options.
pub open spec fn empty_model() -> CliModel {
    CliModel {
        files: seq![],
        goto_line: None,
        goto_column: None,
        encoding: None,
        language: None,
        read_only: false,
        new_instance: false,
        register_shell: false,
        unregister_shell: false,
        new_tab_group: false,
        version: false,
        help: false,
    }
}

/// The last index of `c` in `s`.
pub open spec fn rfind(s: Seq<char>, c: char) -> Option<int>
    decreases s.len(),
{
    if s.len() == 0 {
        None
    } else if s.last() == c {
        Some(s.len() - 1)
    } else {
        rfind(s.drop_last(), c)
    }
}

pub proof fn lemma_rfind(s: Seq<char>, c: char)
    ensures
        match rfind(s, c) {
            Some(k) => 0 <= k < s.len() && s[k] == c && forall|j: int| k < j < s.len() ==> s[j] != c,
            None => forall|j: int| 0 <= j < s.len() ==> s[j] != c,
        },
    decreases s.len(),
{
    if s.len() > 0 && s.last() != c {
        lemma_rfind(s.drop_last(), c);
        assert forall|j: int| 0 <= j < s.len() - 1 implies #[trigger] s[j] == s.drop_last()[j] by {}
    }
}

pub open spec fn is_ascii_alpha(c: char) -> bool {
    ('a' <= c <= 'z') || ('A' <= c <= 'Z')
}

/// A positive number, or nothing.
pub open spec fn positive(o: Option<usize>) -> Option<usize> {
    match o {
        Some(n) => if n > 0 {
            Some(n)
        } else {
            None
        },
        None => None,
    }
}

/// `file:line` or `file:line:col` (a leading drive letter `C:` is not a
/// separator): the file part, the line and the optional column.
pub open spec fn file_location(c: Seq<char>) -> Option<(Seq<char>, usize, Option<usize>)> {
    if c.len() >= 2 && c[1] == ':' && is_ascii_alpha(c[0]) {
        let rest = c.skip(2);
        match rfind(rest, ':') {
            None => None,
            Some(cp) => match positive(parse_usize(rest.skip(cp + 1))) {
                None => None,
                Some(num) => {
                    let before = c.take(2 + cp);
                    match rfind(before.skip(2), ':') {
                        Some(sc) => match positive(parse_usize(c.subrange(2 + sc + 1, 2 + cp))) {
                            Some(line) => Some((c.take(2 + sc), line, Some(num))),
                            None => Some((before, num, None)),
                        },
                        None => Some((before, num, None)),
                    }
                },
            },
        }
    } else {
        match rfind(c, ':') {
            None => None,
            Some(cp) => if cp == 0 || cp + 1 == c.len() {
                None
            } else {
                match positive(parse_usize(c.skip(cp + 1))) {
                    None => None,
                    Some(num) => {
                        let before = c.take(cp);
                        match rfind(before, ':') {
                            Some(sc) => if sc > 0 {
                                match positive(parse_usize(before.skip(sc + 1))) {
                                    Some(line) => Some((before.take(sc), line, Some(num))),
                                    None => Some((before, num, None)),
                                }
                            } else {
                                Some((before, num, None))
                            },
                            None => Some((before, num, None)),
                        }
                    },
                }
            },
        }
    }
}

pub open spec fn is_line_opt(a: Seq<char>) -> bool {
    a == "-n"@ || a == "--line"@ || a == "-goto"@
}

pub open spec fn is_column_opt(a: Seq<char>) -> bool {
    a == "-c"@ || a == "--column"@
}

pub open spec fn is_encoding_opt(a: Seq<char>) -> bool {
    a == "-e"@ || a == "--encoding"@
}

pub open spec fn is_language_opt(a: Seq<char>) -> bool {
    a == "-l"@ || a == "--language"@
}

/// `-nNUM`: `-n` followed by at least one character, all ASCII digits.
pub open spec fn is_combined_line(a: Seq<char>) -> bool {
    a.len() > 2 && a[0] == '-' && a[1] == 'n' && crate::num::all_digits(a.skip(2))
}

/// The effect of a plain (non-option) argument.
pub open spec fn add_file(m: CliModel, a: Seq<char>) -> CliModel {
    match file_location(a) {
        Some((path, line, col)) => CliModel {
            files: m.files.push(path),
            goto_line: if m.goto_line is None {
                Some(line)
            } else {
                m.goto_line
            },
            goto_column: if col is Some && m.goto_column is None {
                col
            } else {
                m.goto_column
            },
            ..m
        },
        None => CliModel { files: m.files.push(a), ..m },
    }
}

/// Parsing the arguments from index `i` on, with `m` parsed so far.
pub open spec fn parse_from(args: Seq<Seq<char>>, i: int, m: CliModel) -> Result<CliModel, Seq<char>>
    decreases args.len() - i,
{
    if i < 0 || i >= args.len() {
        Ok(m)
    } else {
        let a = args[i];
        if is_line_opt(a) || is_column_opt(a) || is_encoding_opt(a) || is_language_opt(a) {
            if i + 1 >= args.len() {
                Err("Missing value for "@ + a)
            } else {
                let v = args[i + 1];
                if is_line_opt(a) {
                    match parse_usize(v) {
                        None => Err("Invalid line number: "@ + v),
                        Some(n) => if n == 0 {
                            Err("Line number must be >= 1"@)
                        } else {
                            parse_from(args, i + 2, CliModel { goto_line: Some(n), ..m })
                        },
                    }
                } else if is_column_opt(a) {
                    match parse_usize(v) {
                        None => Err("Invalid column number: "@ + v),
                        Some(n) => if n == 0 {
                            Err("Column number must be >= 1"@)
                        } else {
                            parse_from(args, i + 2, CliModel { goto_column: Some(n), ..m })
                        },
                    }
                } else if is_encoding_opt(a) {
                    parse_from(args, i + 2, CliModel { encoding: Some(v), ..m })
                } else {
                    parse_from(args, i + 2, CliModel { language: Some(v), ..m })
                }
            }
        } else if a == "-r"@ || a == "--read-only"@ {
            parse_from(args, i + 1, CliModel { read_only: true, ..m })
        } else if a == "--new-instance"@ {
            parse_from(args, i + 1, CliModel { new_instance: true, ..m })
        } else if a == "--register-shell"@ {
            parse_from(args, i + 1, CliModel { register_shell: true, ..m })
        } else if a == "--unregister-shell"@ {
            parse_from(args, i + 1, CliModel { unregister_shell: true, ..m })
        } else if a == "--new-tab-group"@ {
            parse_from(args, i + 1, CliModel { new_tab_group: true, ..m })
        } else if a == "-v"@ || a == "--version"@ {
            parse_from(args, i + 1, CliModel { version: true, ..m })
        } else if a == "-h"@ || a == "--help"@ {
            parse_from(args, i + 1, CliModel { help: true, ..m })
        } else if is_combined_line(a) {
            match parse_usize(a.skip(2)) {
                None => Err("Invalid line number in: "@ + a),
                Some(n) => if n == 0 {
                    Err("Line number must be >= 1"@)
                } else {
                    parse_from(args, i + 1, CliModel { goto_line: Some(n), ..m })
                },
            }
        } else if a.len() > 0 && a[0] == '-' {
            Err("Unknown option: "@ + a)
        } else {
            parse_from(args, i + 1, add_file(m, a))
        }
    }
}

/// The views of a sequence of string slices.
pub open spec fn args_of(v: Seq<&str>) -> Seq<Seq<char>> {
    v.map_values(|s: &str| s@)
}

/// The last index of `c` in `v[from..to]`, relative to `from`.
fn rfind_chars(v: &[char], from: usize, to: usize, c: char) -> (res: Option<usize>)
    requires
        from <= to <= v@.len(),
    ensures
        match rfind(v@.subrange(from as int, to as int), c) {
            Some(k) => 0 <= k < to - from && res == Some(k as usize),
            None => res is None,
        },
{
    proof {
        lemma_rfind(v@.subrange(from as int, to as int), c);
    }
    let mut k = to;
    while k > from
        invariant
            from <= k <= to <= v@.len(),
            rfind(v@.subrange(from as int, to as int), c) == rfind(
                v@.subrange(from as int, k as int),
                c,
            ),
        decreases k,
    {
        assert(v@.subrange(from as int, k as int).drop_last() == v@.subrange(
            from as int,
            k as int - 1,
        ));
        if v[k - 1] == c {
            return Some(k - 1 - from);
        }
        k -= 1;
    }
    None
}

fn positive_exec(o: Option<usize>) -> (res: Option<usize>)
    ensures
        res == positive(o),
{
    match o {
        Some(n) => if n > 0 {
            Some(n)
        } else {
            None
        },
        None => None,
    }
}

/// Parses `file:line` or `file:line:col`, giving the file part, the line and
/// the optional column.
pub fn parse_file_location<'a>(arg: &'a str) -> (res: Option<(&'a str, usize, Option<usize>)>)
    ensures
        match file_location(arg@) {
            Some((f, l, c)) => match res {
                Some((rf, rl, rc)) => rf@ == f && rl == l && rc == c,
                None => false,
            },
            None => res is None,
        },
{
    let c = str_chars(arg);
    let n = c.len();
    if n >= 2 && c[1] == ':' && (('a' <= c[0] && c[0] <= 'z') || ('A' <= c[0] && c[0] <= 'Z')) {
        let cp = match rfind_chars(c.as_slice(), 2, n, ':') {
            None => {
                assert(c@.subrange(2, n as int) == c@.skip(2));
                return None;
            },
            Some(cp) => cp,
        };
        assert(c@.subrange(2, n as int) == c@.skip(2));
        assert(c@.subrange(2 + cp + 1, n as int) == c@.skip(2).skip(cp + 1));
        let num = match positive_exec(parse_usize_chars(c.as_slice(), 2 + cp + 1, n)) {
            None => return None,
            Some(num) => num,
        };
        let before = arg.substring_char(0, 2 + cp);
        assert(c@.subrange(2, 2 + cp) == c@.take(2 + cp).skip(2));
        match rfind_chars(c.as_slice(), 2, 2 + cp, ':') {
            Some(sc) => {
                match positive_exec(parse_usize_chars(c.as_slice(), 2 + sc + 1, 2 + cp)) {
                    Some(line) => {
                        let file = arg.substring_char(0, 2 + sc);
                        return Some((file, line, Some(num)));
                    },
                    None => {
                        return Some((before, num, None));
                    },
                }
            },
            None => {
                return Some((before, num, None));
            },
        }
    }
    assert(c@.subrange(0, n as int) == c@);
    let cp = match rfind_chars(c.as_slice(), 0, n, ':') {
        None => return None,
        Some(cp) => cp,
    };
    if cp == 0 || cp + 1 == n {
        assert(!(c@.len() >= 2 && c@[1] == ':' && is_ascii_alpha(c@[0])));
        assert(rfind(arg@, ':') == Some(cp as int));
        return None;
    }
    assert(c@.subrange(cp + 1, n as int) == c@.skip(cp + 1));
    let num = match positive_exec(parse_usize_chars(c.as_slice(), cp + 1, n)) {
        None => return None,
        Some(num) => num,
    };
    let before = arg.substring_char(0, cp);
    assert(c@.subrange(0, cp as int) == c@.take(cp as int));
    match rfind_chars(c.as_slice(), 0, cp, ':') {
        Some(sc) => {
            if sc > 0 {
                assert(c@.subrange(sc + 1, cp as int) == c@.take(cp as int).skip(sc + 1));
                match positive_exec(parse_usize_chars(c.as_slice(), sc + 1, cp)) {
                    Some(line) => {
                        let file = arg.substring_char(0, sc);
                        assert(c@.take(sc as int) == c@.take(cp as int).take(sc as int));
                        Some((file, line, Some(num)))
                    },
                    None => Some((before, num, None)),
                }
            } else {
                Some((before, num, None))
            }
        },
        None => Some((before, num, None)),
    }
}

/// `prefix` followed by `s`.
fn concat_msg(prefix: &str, s: &str) -> (res: String)
    ensures
        res@ == prefix@ + s@,
{
    let mut r = String::from_str(prefix);
    r.append(s);
    r
}

/// The help text.
pub const HELP_TEXT: &'static str = "Notepad+++ v0.1.0 — A fast, native text editor for programmers

USAGE:
    notepadppp [OPTIONS] [FILES...]

FILES:
    file.txt            Open file
    file.txt:42         Open file at line 42
    file.txt:42:10      Open file at line 42, column 10

OPTIONS:
    -n, --line NUM      Go to line number after opening
    -c, --column NUM    Go to column number after opening
    -e, --encoding ENC  Set file encoding (utf-8, utf-16le, utf-16be, ascii, latin1)
    -l, --language LANG Override syntax language (rust, python, javascript, etc.)
    -r, --read-only     Open files in read-only mode
    --new-instance      Force a new editor window
    --new-tab-group     Open files in a new split panel
    --register-shell    Register shell integration (context menu, file associations)
    --unregister-shell  Remove shell integration
    -v, --version       Print version and exit
    -h, --help          Print this help and exit

EXAMPLES:
    notepadppp file.rs
    notepadppp -n 42 main.rs
    notepadppp main.rs:100:5
    notepadppp --language python script.txt
    notepadppp --register-shell";

impl Default for CliArgs {
    fn default() -> (res: Self)
        ensures
            res@ == empty_model(),
    {
        CliArgs::empty()
    }
}

impl CliArgs {
    /// The help text: usage, file syntax, options and examples.
    pub fn help_text() -> (res: String)
        ensures
            res@ == HELP_TEXT@,
    {
        String::from_str(HELP_TEXT)
    }

    /// No files, no options.
    fn empty() -> (res: Self)
        ensures
            res@ == empty_model(),
    {
        let r = CliArgs {
            files: Vec::new(),
            goto_line: None,
            goto_column: None,
            encoding: None,
            language: None,
            read_only: false,
            new_instance: false,
            register_shell: false,
            unregister_shell: false,
            new_tab_group: false,
            version: false,
            help: false,
        };
        assert(r@.files =~= Seq::<Seq<char>>::empty());
        r
    }

    /// Parses command-line arguments; the first one is the program name.
    pub fn parse(args: Vec<&str>) -> (res: Result<Self, String>)
        ensures
            match parse_from(args_of(args@), 1, empty_model()) {
                Ok(m) => res is Ok && res->Ok_0@ == m,
                Err(e) => res is Err && res->Err_0@ == e,
            },
    {
        let ghost av = args_of(args@);
        let mut result = CliArgs::empty();
        let mut i: usize = 1;
        while i < args.len()
            invariant
                1 <= i,
                av == args_of(args@),
                parse_from(av, i as int, result@) == parse_from(av, 1, empty_model()),
            decreases args.len() - i,
        {
            let arg: &str = args[i];
            assert(av[i as int] == arg@);
            let is_line = str_eq(arg, "-n") || str_eq(arg, "--line") || str_eq(arg, "-goto");
            let is_col = str_eq(arg, "-c") || str_eq(arg, "--column");
            let is_enc = str_eq(arg, "-e") || str_eq(arg, "--encoding");
            let is_lang = str_eq(arg, "-l") || str_eq(arg, "--language");
            if is_line || is_col || is_enc || is_lang {
                if i + 1 >= args.len() {
                    return Err(concat_msg("Missing value for ", arg));
                }
                let val: &str = args[i + 1];
                assert(av[i + 1] == val@);
                if is_line || is_col {
                    let vc = str_chars(val);
                    assert(vc@.subrange(0, vc@.len() as int) == vc@);
                    match parse_usize_chars(vc.as_slice(), 0, vc.len()) {
                        None => {
                            if is_line {
                                return Err(concat_msg("Invalid line number: ", val));
                            } else {
                                return Err(concat_msg("Invalid column number: ", val));
                            }
                        },
                        Some(n) => {
                            if n == 0 {
                                if is_line {
                                    return Err(String::from_str("Line number must be >= 1"));
                                } else {
                                    return Err(String::from_str("Column number must be >= 1"));
                                }
                            }
                            if is_line {
                                result.goto_line = Some(n);
                            } else {
                                result.goto_column = Some(n);
                            }
                        },
                    }
                } else if is_enc {
                    result.encoding = Some(String::from_str(val));
                } else {
                    result.language = Some(String::from_str(val));
                }
                i += 2;
            } else if str_eq(arg, "-r") || str_eq(arg, "--read-only") {
                result.read_only = true;
                i += 1;
            } else if str_eq(arg, "--new-instance") {
                result.new_instance = true;
                i += 1;
            } else if str_eq(arg, "--register-shell") {
                result.register_shell = true;
                i += 1;
            } else if str_eq(arg, "--unregister-shell") {
                result.unregister_shell = true;
                i += 1;
            } else if str_eq(arg, "--new-tab-group") {
                result.new_tab_group = true;
                i += 1;
            } else if str_eq(arg, "-v") || str_eq(arg, "--version") {
                result.version = true;
                i += 1;
            } else if str_eq(arg, "-h") || str_eq(arg, "--help") {
                result.help = true;
                i += 1;
            } else {
                let c = str_chars(arg);
                let n = c.len();
                let mut digits = n > 2 && c[0] == '-' && c[1] == 'n';
                if digits {
                    let mut k: usize = 2;
                    while k < n
                        invariant
                            2 <= k <= n == c@.len(),
                            digits == (forall|t: int| 2 <= t < k ==> crate::num::is_digit(#[trigger] c@[t])),
                        decreases n - k,
                    {
                        if !('0' <= c[k] && c[k] <= '9') {
                            digits = false;
                        }
                        k += 1;
                    }
                    assert(digits == crate::num::all_digits(c@.skip(2))) by {
                        if !digits {
                            let t = choose|t: int| 2 <= t < n && !crate::num::is_digit(#[trigger] c@[t]);
                            assert(c@.skip(2)[t - 2] == c@[t]);
                        } else {
                            assert forall|t: int| 0 <= t < c@.skip(2).len() implies crate::num::is_digit(#[trigger] c@.skip(2)[t]) by {
                                assert(c@.skip(2)[t] == c@[t + 2]);
                            }
                        }
                    }
                }
                if digits {
                    assert(c@.subrange(2, n as int) == c@.skip(2));
                    match parse_usize_chars(c.as_slice(), 2, n) {
                        None => {
                            return Err(concat_msg("Invalid line number in: ", arg));
                        },
                        Some(line) => {
                            if line == 0 {
                                return Err(String::from_str("Line number must be >= 1"));
                            }
                            result.goto_line = Some(line);
                        },
                    }
                } else if n > 0 && c[0] == '-' {
                    return Err(concat_msg("Unknown option: ", arg));
                } else {
                    let ghost m0 = result@;
                    match parse_file_location(arg) {
                        Some((path, line, col)) => {
                            result.files.push(String::from_str(path));
                            if result.goto_line.is_none() {
                                result.goto_line = Some(line);
                            }
                            if let Some(cc) = col {
                                if result.goto_column.is_none() {
                                    result.goto_column = Some(cc);
                                }
                            }
                        },
                        None => {
                            result.files.push(String::from_str(arg));
                        },
                    }
                    assert(result@.files == add_file(m0, arg@).files);
                }
                i += 1;
            }
        }
        Ok(result)
    }
}

} // verus!
