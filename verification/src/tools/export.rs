//! Exporting text as an RTF document, or as an HTML document from the
//! highlighted spans of its lines.
use vstd::prelude::*;
use crate::num::{decimal, hex2, push_decimal, push_hex};
use crate::text::{lines_of, push_char, seqs_of, split_lines};

verus! {

/// The RTF form of one character: `\`, `{` and `}` escaped with a
/// backslash, other ASCII as it is, anything else as `\u<code>?`.
pub open spec fn rtf_char(c: char) -> Seq<char> {
    if c == '\\' {
        seq!['\\', '\\']
    } else if c == '{' {
        seq!['\\', '{']
    } else if c == '}' {
        seq!['\\', '}']
    } else if (c as u32) < 128 {
        seq![c]
    } else {
        seq!['\\', 'u'] + decimal((c as u32) as nat) + seq!['?']
    }
}

/// The RTF form of a line of text.
pub open spec fn rtf_escaped(s: Seq<char>) -> Seq<char>
    decreases s.len(),
{
    if s.len() == 0 {
        seq![]
    } else {
        rtf_escaped(s.drop_last()) + rtf_char(s.last())
    }
}

/// The paragraphs of an RTF document: each line escaped and ended by
/// `\par` and a newline.
pub open spec fn rtf_body(ls: Seq<Seq<char>>) -> Seq<char>
    decreases ls.len(),
{
    if ls.len() == 0 {
        seq![]
    } else {
        rtf_body(ls.drop_last()) + rtf_escaped(ls.last()) + "\\par\n"@
    }
}

/// The RTF header that selects Courier New at 12 points.
pub open spec fn rtf_header() -> Seq<char> {
    "{\\rtf1\\ansi\\deff0{\\fonttbl{\\f0 Courier New;}}\\f0\\fs24\n"@
}

fn push_rtf_escaped(out: &mut String, line: &Vec<char>)
    ensures
        final(out)@ == old(out)@ + rtf_escaped(line@),
{
    let ghost start = out@;
    let mut i: usize = 0;
    while i < line.len()
        invariant
            i <= line@.len(),
            out@ == start + rtf_escaped(line@.take(i as int)),
        decreases line.len() - i,
    {
        let c = line[i];
        proof {
            assert(line@.take(i as int + 1).drop_last() == line@.take(i as int));
        }
        if c == '\\' {
            out.append("\\\\");
            proof {
                reveal_strlit("\\\\");
                assert("\\\\"@ =~= seq!['\\', '\\']);
            }
        } else if c == '{' {
            out.append("\\{");
            proof {
                reveal_strlit("\\{");
                assert("\\{"@ =~= seq!['\\', '{']);
            }
        } else if c == '}' {
            out.append("\\}");
            proof {
                reveal_strlit("\\}");
                assert("\\}"@ =~= seq!['\\', '}']);
            }
        } else if (c as u32) < 128 {
            push_char(out, c);
        } else {
            let ghost before = out@;
            push_char(out, '\\');
            push_char(out, 'u');
            let code: u64 = c as u32 as u64;
            push_decimal(out, code);
            push_char(out, '?');
            proof {
                assert(code as nat == (c as u32) as nat);
                assert(out@ == before + (seq!['\\', 'u'] + decimal((c as u32) as nat) + seq!['?']));
            }
        }
        i += 1;
    }
    proof {
        assert(line@.take(line@.len() as int) == line@);
    }
}

/// The text as an RTF document in Courier New: each line escaped (see
/// `rtf_char`) and made a paragraph.
pub fn export_rtf(text: &str) -> (res: String)
    ensures
        res@ == rtf_header() + rtf_body(lines_of(text@)) + seq!['}'],
{
    let lines = split_lines(text);
    let ghost ls = lines_of(text@);
    let mut out = String::new();
    out.append("{\\rtf1\\ansi\\deff0{\\fonttbl{\\f0 Courier New;}}\\f0\\fs24\n");
    let mut i: usize = 0;
    while i < lines.len()
        invariant
            i <= lines@.len(),
            seqs_of(lines@) == ls,
            out@ == rtf_header() + rtf_body(ls.take(i as int)),
        decreases lines.len() - i,
    {
        proof {
            assert(ls.take(i as int + 1).drop_last() == ls.take(i as int));
            assert(ls[i as int] == lines@[i as int]@);
        }
        push_rtf_escaped(&mut out, &lines[i]);
        out.append("\\par\n");
        i += 1;
    }
    proof {
        assert(ls.take(lines@.len() as int) == ls);
    }
    push_char(&mut out, '}');
    out
}

// ---------------------------------------------------------------------------
// HTML
// ---------------------------------------------------------------------------

/// The HTML form of a char: `&`, `<`, `>` and `"` as entities.
pub open spec fn html_char(c: char) -> Seq<char> {
    if c == '&' {
        "&amp;"@
    } else if c == '<' {
        "&lt;"@
    } else if c == '>' {
        "&gt;"@
    } else if c == '"' {
        "&quot;"@
    } else {
        seq![c]
    }
}

/// A text with the HTML special chars escaped.
pub open spec fn html_escaped(s: Seq<char>) -> Seq<char>
    decreases s.len(),
{
    if s.len() == 0 {
        seq![]
    } else {
        html_escaped(s.drop_last()) + html_char(s.last())
    }
}

/// One highlighted span: its foreground colour and text.
pub open spec fn span_html(sp: (u8, u8, u8, Seq<char>)) -> Seq<char> {
    "<span style=\"color:#"@ + hex2(sp.0, false) + hex2(sp.1, false) + hex2(sp.2, false) + "\">"@
        + html_escaped(sp.3) + "</span>"@
}

/// The spans of a line, without the line break.
pub open spec fn spans_html(spans: Seq<(u8, u8, u8, Seq<char>)>) -> Seq<char>
    decreases spans.len(),
{
    if spans.len() == 0 {
        seq![]
    } else {
        spans_html(spans.drop_last()) + span_html(spans.last())
    }
}

/// The body: each line's spans followed by `<br>` and a newline.
pub open spec fn html_body(lines: Seq<Seq<(u8, u8, u8, Seq<char>)>>) -> Seq<char>
    decreases lines.len(),
{
    if lines.len() == 0 {
        seq![]
    } else {
        html_body(lines.drop_last()) + spans_html(lines.last()) + "<br>\n"@
    }
}

pub open spec fn html_head() -> Seq<char> {
    "<!DOCTYPE html>\n<html>\n<head>\n<meta charset=\"UTF-8\">\n<title>Exported from Notepad+++</title>\n<style>\nbody { font-family: monospace; white-space: pre-wrap; background: #2b303b; color: #c0c5ce; padding: 1em; }\n</style>\n</head>\n<body>\n"@
}

pub open spec fn html_tail() -> Seq<char> {
    "</body>\n</html>"@
}

/// A span as plain values.
pub open spec fn span_view(sp: (u8, u8, u8, String)) -> (u8, u8, u8, Seq<char>) {
    (sp.0, sp.1, sp.2, sp.3@)
}

pub open spec fn lines_view(lines: Seq<Vec<(u8, u8, u8, String)>>) -> Seq<Seq<(u8, u8, u8, Seq<char>)>> {
    lines.map_values(|l: Vec<(u8, u8, u8, String)>| l@.map_values(|sp: (u8, u8, u8, String)| span_view(sp)))
}

fn push_html_escaped(out: &mut String, s: &str)
    ensures
        final(out)@ == old(out)@ + html_escaped(s@),
{
    let cs = crate::text::str_chars(s);
    let ghost start = out@;
    let mut i: usize = 0;
    while i < cs.len()
        invariant
            i <= cs@.len(),
            cs@ == s@,
            out@ == start + html_escaped(cs@.take(i as int)),
        decreases cs.len() - i,
    {
        let c = cs[i];
        assert(cs@.take(i + 1).drop_last() =~= cs@.take(i as int));
        if c == '&' {
            out.append("&amp;");
        } else if c == '<' {
            out.append("&lt;");
        } else if c == '>' {
            out.append("&gt;");
        } else if c == '"' {
            out.append("&quot;");
        } else {
            push_char(out, c);
        }
        i = i + 1;
    }
    assert(cs@.take(cs@.len() as int) =~= cs@);
}

/// The text as an HTML document on a dark background: `lines` holds, for
/// each line of the text, its highlighted spans (foreground red, green,
/// blue and text), each drawn in its colour with the text escaped.
pub fn export_html(lines: &Vec<Vec<(u8, u8, u8, String)>>) -> (res: String)
    ensures
        res@ == html_head() + html_body(lines_view(lines@)) + html_tail(),
{
    let mut out = String::from_str("<!DOCTYPE html>\n<html>\n<head>\n<meta charset=\"UTF-8\">\n<title>Exported from Notepad+++</title>\n<style>\nbody { font-family: monospace; white-space: pre-wrap; background: #2b303b; color: #c0c5ce; padding: 1em; }\n</style>\n</head>\n<body>\n");
    let ghost lv = lines_view(lines@);
    let mut i: usize = 0;
    while i < lines.len()
        invariant
            i <= lines@.len(),
            lv == lines_view(lines@),
            out@ == html_head() + html_body(lv.take(i as int)),
        decreases lines.len() - i,
    {
        let spans = &lines[i];
        let ghost sv = lv[i as int];
        let ghost line_start = out@;
        let mut k: usize = 0;
        while k < spans.len()
            invariant
                k <= spans@.len(),
                sv == spans@.map_values(|sp: (u8, u8, u8, String)| span_view(sp)),
                out@ == line_start + spans_html(sv.take(k as int)),
            decreases spans.len() - k,
        {
            let sp = &spans[k];
            let ghost before = out@;
            out.append("<span style=\"color:#");
            let rgb: [u8; 3] = [sp.0, sp.1, sp.2];
            push_hex(&mut out, &rgb, false);
            out.append("\">");
            push_html_escaped(&mut out, sp.3.as_str());
            out.append("</span>");
            proof {
                assert(rgb@ =~= seq![sp.0, sp.1, sp.2]);
                assert(crate::num::hex_of(seq![sp.0, sp.1, sp.2], false) =~= hex2(sp.0, false) + hex2(
                    sp.1,
                    false,
                ) + hex2(sp.2, false)) by {
                    reveal_with_fuel(crate::num::hex_of, 4);
                    assert(seq![sp.0, sp.1, sp.2].drop_last() =~= seq![sp.0, sp.1]);
                    assert(seq![sp.0, sp.1].drop_last() =~= seq![sp.0]);
                    assert(seq![sp.0].drop_last() =~= Seq::<u8>::empty());
                }
                assert(sv.take(k + 1).drop_last() =~= sv.take(k as int));
                assert(out@ =~= before + span_html(sv[k as int]));
            }
            k = k + 1;
        }
        out.append("<br>\n");
        proof {
            assert(sv.take(spans@.len() as int) =~= sv);
            assert(lv.take(i + 1).drop_last() =~= lv.take(i as int));
        }
        i = i + 1;
    }
    out.append("</body>\n</html>");
    assert(lv.take(lv.len() as int) =~= lv);
    out
}

} // verus!
