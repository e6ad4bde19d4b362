use notepadppp::native::scintilla::{lexer_for_extension, rgb};
use notepadppp::tools::csv_viewer::{add_column, filter_rows, parse_csv, remove_column, to_csv};
use notepadppp::tools::diff_tool::{diff_texts, DiffLine};
use notepadppp::tools::export::{export_html, export_rtf};
use notepadppp::tools::hash_tools::{crc32, md5, sha1, sha256};
use notepadppp::tools::hex_viewer::{from_hex_string, to_hex_string, HexView};
use notepadppp::tools::mime_tools::{
    base64_decode, base64_encode, hex_decode, hex_encode, html_entity_decode, html_entity_encode,
    url_decode, url_encode,
};

#[test]
fn diff_marks_changed_added_and_same() {
    let d = diff_texts("a\nb\nc", "a\nx\nc");
    assert_eq!(d.lines.len(), 3);
    assert!(matches!(&d.lines[0], DiffLine::Same(s) if s == "a"));
    assert!(matches!(&d.lines[1], DiffLine::Changed { old, new } if old == "b" && new == "x"));
    assert!(matches!(&d.lines[2], DiffLine::Same(s) if s == "c"));
    assert_eq!((d.stats.same, d.stats.changed, d.stats.added, d.stats.removed), (2, 1, 0, 0));
    let same = diff_texts("p\nq", "p\nq");
    assert_eq!((same.stats.same, same.stats.added + same.stats.removed + same.stats.changed), (2, 0));
    let gone = diff_texts("a\nb", "");
    assert_eq!((gone.stats.removed, gone.lines.len()), (2, 2));
}

#[test]
fn csv_parse_with_headers_and_quotes() {
    let d = parse_csv("a,b\n1,2\n", ',', true);
    assert_eq!(d.headers, vec!["a", "b"]);
    assert_eq!(d.rows, vec![vec!["1".to_string(), "2".to_string()]]);
    let q = parse_csv("\"x,y\",\"he said \"\"hi\"\"\"\r\nz", ',', false);
    assert_eq!(q.headers, vec!["Column 1", "Column 2"]);
    assert_eq!(q.rows[0], vec!["x,y".to_string(), "he said \"hi\"".to_string()]);
    assert_eq!(q.rows[1], vec!["z".to_string(), "".to_string()]);
    let short = parse_csv("a;b\n1\n", ';', true);
    assert_eq!(short.rows, vec![vec!["1".to_string(), "".to_string()]]);
    let empty = parse_csv("", ',', true);
    assert!(empty.headers.is_empty() && empty.rows.is_empty());
}

#[test]
fn csv_write_filter_and_columns() {
    let mut d = parse_csv("name,city\nAnn,Oslo\nBob,\"New, York\"\n", ',', true);
    assert_eq!(to_csv(&d), "name,city\nAnn,Oslo\nBob,\"New, York\"\n");
    let f = filter_rows(&d, 1, "oSLo");
    assert_eq!(f.rows.len(), 1);
    assert_eq!(f.rows[0][0], "Ann");
    add_column(&mut d, "age");
    assert_eq!(d.headers, vec!["name", "city", "age"]);
    assert_eq!(d.rows[1], vec!["Bob".to_string(), "New, York".to_string(), "".to_string()]);
    remove_column(&mut d, 0);
    assert_eq!(d.headers, vec!["city", "age"]);
    remove_column(&mut d, 9);
    assert_eq!(d.rows[0], vec!["Oslo".to_string(), "".to_string()]);
}

#[test]
fn hex_view_and_hex_strings() {
    let mut v = HexView::from_text("Hi");
    assert_eq!(v.bytes, vec![72, 105]);
    assert_eq!((v.bytes_per_row, v.cursor_offset, v.show_ascii), (16, 0, true));
    assert_eq!(v.get_byte_at(1), Some(105));
    assert_eq!(v.get_byte_at(2), None);
    v.set_byte_at(0, 1);
    v.set_byte_at(5, 1);
    assert_eq!(v.bytes, vec![1, 105]);
    assert_eq!(HexView::from_bytes(vec![9]).bytes, vec![9]);
    assert_eq!(to_hex_string(&[0x48, 0x0a, 0xff]), "480AFF");
    assert_eq!(from_hex_string("48 0A ff"), Ok(vec![0x48, 0x0a, 0xff]));
    assert_eq!(from_hex_string("4"), Err("Hex string must have even length".to_string()));
    assert_eq!(
        from_hex_string("00zz"),
        Err("Invalid hex byte 'zz': invalid digit found in string".to_string())
    );
    assert_eq!(from_hex_string("+a"), Ok(vec![10]));
    assert_eq!(from_hex_string(&to_hex_string(&[0, 1, 254])), Ok(vec![0, 1, 254]));
}

#[test]
fn checksums_in_hex() {
    assert_eq!(sha256(b"abc"), "ba7816bf8f01cfea414140de5dae2223b00361a396177a9cb410ff61f20015ad");
    assert_eq!(sha1(b"abc"), "a9993e364706816aba3e25717850c26c9cd0d89d");
    assert_eq!(md5(b"abc"), "900150983cd24fb0d6963f7d28e17f72");
    assert_eq!(crc32(b"abc"), "352441c2");
    assert_eq!(crc32(b""), "00000000");
}

#[test]
fn rtf_export_escapes() {
    assert_eq!(
        export_rtf("a{b}\\é\nx"),
        "{\\rtf1\\ansi\\deff0{\\fonttbl{\\f0 Courier New;}}\\f0\\fs24\na\\{b\\}\\\\\\u233?\\par\nx\\par\n}"
    );
    assert_eq!(export_rtf(""), "{\\rtf1\\ansi\\deff0{\\fonttbl{\\f0 Courier New;}}\\f0\\fs24\n}");
}

#[test]
fn transfer_encodings() {
    assert_eq!(hex_encode("Hi"), "4869");
    assert_eq!(url_encode("a b&é~"), "a%20b%26%C3%A9~");
    assert_eq!(
        html_entity_encode("<a href='x'>&\"</a>"),
        "&lt;a href=&apos;x&apos;&gt;&amp;&quot;&lt;/a&gt;"
    );
}

#[test]
fn scintilla_helpers() {
    assert_eq!(rgb(1, 2, 3), 0x030201);
    assert_eq!(rgb(255, 255, 255), 0x00ffffff);
    assert_eq!(lexer_for_extension("RS"), Some("rust"));
    assert_eq!(lexer_for_extension("tsx"), Some("cpp"));
    assert_eq!(lexer_for_extension("Makefile"), Some("makefile"));
    assert_eq!(lexer_for_extension("zzz"), None);
}

#[test]
fn mime_html_entity_decode() {
    assert_eq!(
        html_entity_decode("a &lt;b&gt; &amp; &#65;&#x42; &bogus; &noend"),
        "a <b> & AB &bogus; &noend"
    );
    assert_eq!(html_entity_decode("&quot;&apos;"), "\"'");
    assert_eq!(html_entity_decode("&abcdefghijkl;"), "&abcdefghijkl;");
    assert_eq!(html_entity_decode("&#xD800;"), "&#xD800;");
    assert_eq!(html_entity_decode(&html_entity_encode("<a href='x'>&</a>")), "<a href='x'>&</a>");
}

#[test]
fn mime_url_decode() {
    assert_eq!(url_decode("a%20b+c%2B"), Ok("a b c+".to_string()));
    assert_eq!(url_decode("%2"), Err("Incomplete percent-encoding".to_string()));
    assert_eq!(url_decode("%zz"), Err("Invalid percent-encoding: %zz".to_string()));
    assert!(url_decode("%FF").unwrap_err().starts_with("Invalid UTF-8 in decoded data: "));
    assert_eq!(url_decode(&url_encode("héllo wörld")), Ok("héllo wörld".to_string()));
}

#[test]
fn mime_hex_decode() {
    assert_eq!(hex_decode("68 65 6c"), Ok("hel".to_string()));
    assert_eq!(hex_decode("abc"), Err("Hex string must have even length".to_string()));
    assert_eq!(hex_decode("zz"), Err("Invalid hex at position 0: zz".to_string()));
    assert!(hex_decode("ff").unwrap_err().starts_with("Invalid UTF-8 in decoded data: "));
    assert_eq!(hex_decode(&hex_encode("Ünïcode")), Ok("Ünïcode".to_string()));
}

#[test]
fn mime_base64() {
    assert_eq!(base64_encode("hello"), "aGVsbG8=");
    assert_eq!(base64_decode(" aGVsbG8= \n"), Ok("hello".to_string()));
    assert!(base64_decode("!!!").unwrap_err().starts_with("Base64 decode error: "));
    assert_eq!(base64_decode(&base64_encode("round trip")), Ok("round trip".to_string()));
}

#[test]
fn export_html_spans() {
    let lines = vec![vec![(0xff, 0x00, 0x10, "a<b & \"c\"".to_string())], vec![]];
    let html = export_html(&lines);
    assert!(html.starts_with("<!DOCTYPE html>\n<html>\n<head>\n<meta charset=\"UTF-8\">\n"));
    assert!(html.ends_with(
        "<body>\n<span style=\"color:#ff0010\">a&lt;b &amp; &quot;c&quot;</span><br>\n<br>\n</body>\n</html>"
    ));
}

#[test]
fn mime_encodings_decode_back() {
    for text in ["", "plain", "a b+c/d?e=é&ü", "<p class=\"x\">'&amp;'</p>", "日本語 ; & ;"] {
        assert_eq!(url_decode(&url_encode(text)), Ok(text.to_string()));
        assert_eq!(hex_decode(&hex_encode(text)), Ok(text.to_string()));
        assert_eq!(html_entity_decode(&html_entity_encode(text)), text.to_string());
        assert_eq!(base64_decode(&base64_encode(text)), Ok(text.to_string()));
    }
}

#[test]
fn csv_written_then_parsed_gives_the_table_back() {
    let text = "name;note\n\"a;b\";\"say \"\"hi\"\"\"\nplain;\"two\nlines\"\n;\n";
    let d = parse_csv(text, ';', true);
    assert_eq!(d.headers, vec!["name".to_string(), "note".to_string()]);
    assert_eq!(d.rows[0], vec!["a;b".to_string(), "say \"hi\"".to_string()]);
    assert_eq!(d.rows[1], vec!["plain".to_string(), "two\nlines".to_string()]);
    assert_eq!(d.rows[2], vec![String::new(), String::new()]);
    let again = parse_csv(&to_csv(&d), ';', true);
    assert_eq!(again.headers, d.headers);
    assert_eq!(again.rows, d.rows);
}
