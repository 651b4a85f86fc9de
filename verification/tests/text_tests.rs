use strix::text::{
    after_last_str, before_first_str, chars_of, concat_str, contains_str, decode_utf16_lossy,
    decode_utf8_lossy, eq_ignore_ascii_case_str, is_white_space_char, join_strings, push_decimal,
    push_hex4, replace_char_str, same_text, split_once_char, string_from_chars, to_lowercase,
    trim_str,
};

#[test]
fn trim_removes_unicode_whitespace() {
    assert_eq!(trim_str("  hello \t\n"), "hello");
    assert_eq!(trim_str("\u{3000}x y\u{85}"), "x y");
    assert_eq!(trim_str(""), "");
    assert_eq!(trim_str(" \u{a0}\u{2028} "), "");
    assert_eq!(trim_str("inner  space"), "inner  space");
}

#[test]
fn trim_agrees_with_std() {
    for s in ["\u{1680}a\u{200a}", "\u{202f}\u{205f}b", "\u{200b}c", "\r\n\u{b}\u{c}d\u{9}"] {
        assert_eq!(trim_str(s), s.trim());
    }
}

#[test]
fn trim_is_idempotent_on_examples() {
    for s in ["  a b  ", "\tx", "", "   "] {
        let once = trim_str(s);
        assert_eq!(trim_str(&once), once);
    }
}

#[test]
fn whitespace_table() {
    assert!(is_white_space_char(' '));
    assert!(is_white_space_char('\u{2009}'));
    assert!(!is_white_space_char('\u{200b}'));
    assert!(!is_white_space_char('a'));
}

#[test]
fn separators() {
    assert_eq!(after_last_str("C:\\Apps\\tool.exe", '\\'), "tool.exe");
    assert_eq!(after_last_str("plain", '\\'), "plain");
    assert_eq!(after_last_str("dir\\", '\\'), "");
    assert_eq!(before_first_str("Microsoft.WindowsCamera_8wekyb3d8bbwe", '_'), "Microsoft.WindowsCamera");
    assert_eq!(before_first_str("nounderscore", '_'), "nounderscore");
    assert_eq!(split_once_char("a,b,c", ','), ("a".to_string(), Some("b,c".to_string())));
    assert_eq!(split_once_char("abc", ','), ("abc".to_string(), None));
    assert_eq!(replace_char_str("C:#Windows#x.exe", '#', '\\'), "C:\\Windows\\x.exe");
}

#[test]
fn search_and_comparison() {
    assert!(contains_str("intel cpu package", "package"));
    assert!(contains_str("abc", ""));
    assert!(!contains_str("ab", "abc"));
    assert!(!contains_str("core #1", "cpu"));
    assert!(eq_ignore_ascii_case_str("nonpackaged", "NonPackaged"));
    assert!(!eq_ignore_ascii_case_str("NonPackage", "NonPackaged"));
    assert!(same_text("a\u{e9}", "a\u{e9}"));
    assert!(!same_text("a", "A"));
}

#[test]
fn number_formatting() {
    let mut s = String::new();
    push_decimal(&mut s, 0);
    assert_eq!(s, "0");
    let mut s = String::from("n=");
    push_decimal(&mut s, 12345);
    assert_eq!(s, "n=12345");
    let mut s = String::new();
    push_decimal(&mut s, u32::MAX);
    assert_eq!(s, u32::MAX.to_string());
    let mut h = String::new();
    push_hex4(&mut h, 0x0409);
    push_hex4(&mut h, 0xBEEF);
    assert_eq!(h, "0409beef");
}

#[test]
fn joining_and_building() {
    let parts = vec!["a".to_string(), "b".to_string(), "c".to_string()];
    assert_eq!(join_strings(&parts, " "), "a b c");
    assert_eq!(join_strings(&Vec::new(), " "), "");
    assert_eq!(join_strings(&vec!["only".to_string()], ", "), "only");
    assert_eq!(concat_str("GPU: ", "RTX"), "GPU: RTX");
    let v = chars_of("h\u{e9}llo");
    assert_eq!(v.len(), 5);
    assert_eq!(string_from_chars(&v), "h\u{e9}llo");
}

#[test]
fn utf16_decoding_matches_std() {
    let cases: Vec<Vec<u16>> = vec![
        "Hi".encode_utf16().collect(),
        vec![0xD83D, 0xDE00],
        vec![0xD800, 0x41],
        vec![0xDC00],
        vec![0x41, 0xD800],
        vec![],
    ];
    for c in cases {
        assert_eq!(decode_utf16_lossy(&c), String::from_utf16_lossy(&c));
    }
    assert_eq!(decode_utf16_lossy(&[0xD83D, 0xDE00]), "\u{1F600}");
    assert_eq!(decode_utf16_lossy(&[0xD800, 0x41]), "\u{FFFD}A");
}

#[test]
fn lowercase_and_utf8_wrappers() {
    assert_eq!(to_lowercase("ChRoMe.EXE"), "chrome.exe");
    assert_eq!(decode_utf8_lossy(b"ab\xffc"), "ab\u{FFFD}c");
}
