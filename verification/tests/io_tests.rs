use notepadppp::editor::document::{Encoding, LineEnding};
use notepadppp::io::file_io::{
    convert_line_endings, decode_file_contents, detect_encoding, detect_line_ending,
    encode_file_contents, is_binary_content, ContentErrorKind,
};
use notepadppp::io::keybindings::{KeyBinding, KeyBindings};
use notepadppp::io::large_file::LargeFileInfo;
use notepadppp::io::line_ending_detect::{detect_mixed_line_endings, normalize_line_endings};
use notepadppp::io::recent_files::RecentFiles;
use notepadppp::io::session::{
    encoding_to_string, line_ending_to_string, parse_encoding, parse_line_ending,
};

#[test]
fn encoding_detection_from_bytes() {
    assert_eq!(detect_encoding(&[0xEF, 0xBB, 0xBF, b'a']), Encoding::UTF8BOM);
    assert_eq!(detect_encoding(&[0xFF, 0xFE, 0x41, 0x00]), Encoding::UTF16LE);
    assert_eq!(detect_encoding(&[0xFE, 0xFF]), Encoding::UTF16BE);
    assert_eq!(detect_encoding(b"plain text"), Encoding::ASCII);
    assert_eq!(detect_encoding("é".as_bytes()), Encoding::UTF8);
    assert_eq!(detect_encoding(&[]), Encoding::ASCII);
}

#[test]
fn dominant_line_ending() {
    assert_eq!(detect_line_ending("a\r\nb\r\n"), LineEnding::CRLF);
    assert_eq!(detect_line_ending("a\nb\n"), LineEnding::LF);
    assert_eq!(detect_line_ending("a\rb\r"), LineEnding::CR);
    assert_eq!(detect_line_ending(""), LineEnding::LF);
    assert_eq!(detect_line_ending("a\r\nb\nc\n"), LineEnding::LF);
    assert_eq!(detect_line_ending("a\r\nb\n"), LineEnding::CRLF);
}

#[test]
fn converting_line_endings() {
    assert_eq!(convert_line_endings("a\r\nb\rc\n", LineEnding::CRLF), "a\r\nb\r\nc\r\n");
    assert_eq!(convert_line_endings("a\r\nb\rc\n", LineEnding::LF), "a\nb\nc\n");
    assert_eq!(convert_line_endings("a\r\nb\rc\n", LineEnding::CR), "a\rb\rc\r");
    assert_eq!(convert_line_endings("\r\r\n", LineEnding::LF), "\n\n");
    assert_eq!(normalize_line_endings("a\r\nb", "\r"), "a\rb");
    assert_eq!(normalize_line_endings("a\rb", "\r\n"), "a\r\nb");
    assert_eq!(normalize_line_endings("a\rb", "x"), "a\nb");
}

#[test]
fn binary_detection() {
    assert!(!is_binary_content(b"hello world\n"));
    assert!(is_binary_content(&[b'a', 0, b'b']));
    assert!(!is_binary_content(&[]));
    let mut ten = vec![b'a'; 9];
    ten.push(1);
    assert!(!is_binary_content(&ten));
    let mut more = vec![b'a'; 8];
    more.push(1);
    more.push(2);
    assert!(is_binary_content(&more));
    assert!(!is_binary_content(&[0x1B, b'[', b'm']));
}

#[test]
fn mixed_line_endings_report() {
    let r = detect_mixed_line_endings("a\nb\r\nc\r").unwrap();
    assert_eq!((r.crlf, r.lf, r.cr), (1, 1, 1));
    assert!(detect_mixed_line_endings("a\nb\n").is_none());
    assert!(detect_mixed_line_endings("no breaks").is_none());
}

#[test]
fn large_file_categories() {
    let small = LargeFileInfo::from_size(1024);
    assert!(!small.is_large && !small.syntax_disabled && small.undo_limit.is_none());
    let large = LargeFileInfo::from_size(10 * 1024 * 1024);
    assert!(large.is_large && large.syntax_disabled && !large.is_very_large);
    assert_eq!(large.undo_limit, Some(100));
    let huge = LargeFileInfo::from_size(100 * 1024 * 1024);
    assert!(huge.is_very_large && huge.minimap_disabled && huge.function_list_disabled);
    assert_eq!(LargeFileInfo::default().file_size, 0);
}

#[test]
fn key_binding_display_and_matching() {
    assert_eq!(KeyBinding::new("S", true, true, false).display(), "Ctrl+Shift+S");
    assert_eq!(KeyBinding::new("F3", false, false, true).display(), "Alt+F3");
    let kb = KeyBindings::defaults();
    assert_eq!(kb.bindings().len(), 33);
    assert!(kb.matches("save", "s", true, false, false));
    assert!(!kb.matches("save", "S", true, true, false));
    assert!(kb.matches("save_as", "S", true, true, false));
    assert!(!kb.matches("no_such_action", "S", true, false, false));
    assert_eq!(kb.display_shortcut("find_next"), "F3");
    assert_eq!(kb.display_shortcut("find_prev"), "Shift+F3");
    assert_eq!(kb.display_shortcut("nothing"), "");
}

#[test]
fn actions_sorted_by_shown_name() {
    let kb = KeyBindings::default();
    let all = kb.all_actions_sorted();
    assert_eq!(all.len(), 33);
    assert_eq!(all[0], ("close_tab".to_string(), "Close Tab".to_string(), "Ctrl+W".to_string()));
    assert_eq!(all[1].1, "Command Palette");
    assert_eq!(all[29].0, "case_lower");
    assert_eq!(all[32], ("join_lines".to_string(), "join_lines".to_string(), "Ctrl+J".to_string()));
    for w in all.windows(2) {
        assert!(w[0].1 <= w[1].1);
    }
}

#[test]
fn recent_files_order_and_limit() {
    let mut r = RecentFiles::new();
    r.add("a".to_string());
    r.add("b".to_string());
    r.add("a".to_string());
    assert_eq!(r.list(), &["a".to_string(), "b".to_string()]);
    r.remove("a");
    assert_eq!(r.list(), &["b".to_string()]);
    r.clear();
    assert!(r.list().is_empty());
    let mut s = RecentFiles::with_max(2);
    s.add("x".to_string());
    s.add("y".to_string());
    s.add("z".to_string());
    assert_eq!(s.list(), &["z".to_string(), "y".to_string()]);
    let mut none = RecentFiles::with_max(0);
    none.add("x".to_string());
    assert!(none.list().is_empty());
}

#[test]
fn session_names_round_trip() {
    for e in [Encoding::UTF8, Encoding::UTF8BOM, Encoding::UTF16LE, Encoding::UTF16BE, Encoding::ASCII] {
        assert_eq!(parse_encoding(&encoding_to_string(e)), e);
    }
    for le in [LineEnding::CRLF, LineEnding::LF, LineEnding::CR] {
        assert_eq!(parse_line_ending(&line_ending_to_string(le)), le);
    }
    assert_eq!(encoding_to_string(Encoding::UTF8BOM), "UTF-8 BOM");
    assert_eq!(parse_encoding("latin"), Encoding::UTF8);
    assert_eq!(parse_line_ending("crlf"), LineEnding::LF);
}

#[test]
fn file_contents_decode_and_encode() {
    assert_eq!(
        decode_file_contents(b"a\r\nb".to_vec()),
        Ok(("a\r\nb".to_string(), Encoding::ASCII, LineEnding::CRLF))
    );
    let mut bom = vec![0xEF, 0xBB, 0xBF];
    bom.extend_from_slice("hé\n".as_bytes());
    assert_eq!(
        decode_file_contents(bom),
        Ok(("hé\n".to_string(), Encoding::UTF8BOM, LineEnding::LF))
    );
    assert!(matches!(
        decode_file_contents(vec![0xEF, 0xBB, 0xBF, 0xFF]),
        Err((ContentErrorKind::InvalidData, _))
    ));
    assert_eq!(
        decode_file_contents(vec![0xFF, 0xFE, 0x41, 0x00, 0x0A, 0x00]),
        Ok(("A\n".to_string(), Encoding::UTF16LE, LineEnding::LF))
    );
    assert_eq!(
        decode_file_contents(vec![0xFE, 0xFF, 0xD8, 0x3D, 0xDE, 0x00]),
        Ok(("\u{1F600}".to_string(), Encoding::UTF16BE, LineEnding::LF))
    );
    assert_eq!(
        decode_file_contents(vec![0xFF, 0xFE, 0x41]),
        Err((ContentErrorKind::InvalidData, "UTF-16 data has an odd number of bytes".to_string()))
    );
    assert_eq!(
        decode_file_contents(vec![0xFF, 0xFE, 0x00, 0xD8]),
        Err((ContentErrorKind::InvalidData, "Invalid UTF-16 data".to_string()))
    );
    assert_eq!(
        decode_file_contents(vec![0x68, 0xFF]),
        Ok(("h\u{FFFD}".to_string(), Encoding::UTF8, LineEnding::LF))
    );
    let mut expected = vec![0xEF, 0xBB, 0xBF];
    expected.extend_from_slice(b"a\r\nb");
    assert_eq!(encode_file_contents("a\nb", Encoding::UTF8BOM, LineEnding::CRLF), Ok(expected));
    assert_eq!(
        encode_file_contents("x\n", Encoding::UTF16LE, LineEnding::CRLF),
        Ok(vec![0xFF, 0xFE, 0x78, 0x00, 0x0D, 0x00, 0x0A, 0x00])
    );
    assert_eq!(
        encode_file_contents("\u{1F600}", Encoding::UTF16BE, LineEnding::LF),
        Ok(vec![0xFE, 0xFF, 0xD8, 0x3D, 0xDE, 0x00])
    );
    assert_eq!(encode_file_contents("a\r\nb\rc", Encoding::UTF8, LineEnding::LF), Ok(b"a\nb\nc".to_vec()));
}

#[test]
fn saving_then_opening_gives_the_converted_text_back() {
    let text = "héllo\r\nwörld\rend\n";
    for le in [LineEnding::LF, LineEnding::CRLF, LineEnding::CR] {
        let converted = convert_line_endings(text, le);
        let bytes = encode_file_contents(text, Encoding::UTF8BOM, le).unwrap();
        assert_eq!(decode_file_contents(bytes), Ok((converted.clone(), Encoding::UTF8BOM, le)));
        let bytes = encode_file_contents(text, Encoding::UTF8, le).unwrap();
        assert_eq!(decode_file_contents(bytes), Ok((converted.clone(), Encoding::UTF8, le)));
        for enc in [Encoding::UTF16LE, Encoding::UTF16BE] {
            let bytes = encode_file_contents(text, enc, le).unwrap();
            assert_eq!(decode_file_contents(bytes), Ok((converted.clone(), enc, le)));
        }
    }
    let bytes = encode_file_contents("plain\nascii", Encoding::UTF8, LineEnding::CRLF).unwrap();
    assert_eq!(
        decode_file_contents(bytes),
        Ok(("plain\r\nascii".to_string(), Encoding::ASCII, LineEnding::CRLF))
    );
    // A text that itself starts with U+FEFF comes back as UTF-8 BOM without it.
    let bytes = encode_file_contents("\u{FEFF}x", Encoding::UTF8, LineEnding::LF).unwrap();
    assert_eq!(decode_file_contents(bytes), Ok(("x".to_string(), Encoding::UTF8BOM, LineEnding::LF)));
}

#[test]
fn converting_then_detecting_gives_the_target_back() {
    let text = "a\r\nb\nc\rd";
    for le in [LineEnding::LF, LineEnding::CRLF, LineEnding::CR] {
        assert_eq!(detect_line_ending(&convert_line_endings(text, le)), le);
    }
    assert_eq!(detect_line_ending(&convert_line_endings("no breaks", LineEnding::LF)), LineEnding::LF);
    assert_eq!(detect_line_ending(&convert_line_endings("no breaks", LineEnding::CRLF)), LineEnding::LF);
}

#[test]
fn bindings_from_pairs_keep_one_per_action() {
    let kb = KeyBindings::from_pairs(vec![
        ("save".to_string(), KeyBinding::new("S", true, false, false)),
        ("find".to_string(), KeyBinding::new("F", true, false, false)),
        ("save".to_string(), KeyBinding::new("W", false, true, false)),
    ]);
    assert_eq!(kb.bindings().len(), 2);
    assert_eq!(kb.bindings()[0].0, "save");
    assert_eq!(kb.bindings()[0].1.display(), "Shift+W");
    assert_eq!(kb.display_shortcut("save"), "Shift+W");
    let all = kb.all_actions_sorted();
    assert_eq!(all.len(), 2);
    assert_eq!(all[0].0, "find");
    assert_eq!(all[1].0, "save");
}

#[test]
fn converting_line_endings_twice_changes_nothing_more() {
    let text = "a\r\nb\rc\nd\r\r\n";
    for le in [LineEnding::LF, LineEnding::CRLF, LineEnding::CR] {
        let once = convert_line_endings(text, le);
        assert_eq!(convert_line_endings(&once, le), once);
        assert_eq!(convert_line_endings(&once, LineEnding::LF), convert_line_endings(text, LineEnding::LF));
    }
    assert_eq!(convert_line_endings(text, LineEnding::LF), "a\nb\nc\nd\n\n");
}
