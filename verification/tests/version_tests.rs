use strix::version_info::{
    decode_version_string, lang_codepage, read_version_info, string_query_path, translation_usable,
    value_usable, version_query_paths, VersionInfo, VersionStrings,
};

fn wide(s: &str) -> Vec<u16> {
    let mut v: Vec<u16> = s.encode_utf16().collect();
    v.push(0);
    v
}

#[test]
fn translation_choice() {
    assert!(translation_usable(true, 4, true));
    assert!(!translation_usable(true, 2, true));
    assert!(!translation_usable(false, 4, true));
    assert!(!translation_usable(true, 4, false));
    assert_eq!(lang_codepage(None), (0x0409, 0x04b0));
    assert_eq!(lang_codepage(Some((0x0407, 0x04e4))), (0x0407, 0x04e4));
}

#[test]
fn query_paths() {
    assert_eq!(string_query_path(0x0409, 0x04b0, "CompanyName"), "\\StringFileInfo\\040904b0\\CompanyName");
    let p = version_query_paths(0x0407, 0x04e4);
    assert_eq!(
        p,
        vec![
            "\\StringFileInfo\\040704e4\\CompanyName".to_string(),
            "\\StringFileInfo\\040704e4\\ProductName".to_string(),
            "\\StringFileInfo\\040704e4\\FileDescription".to_string(),
            "\\StringFileInfo\\040704e4\\FileVersion".to_string(),
        ]
    );
    assert!(value_usable(true, 1, true));
    assert!(!value_usable(true, 0, true));
}

#[test]
fn decoding_stops_at_nul() {
    assert_eq!(decode_version_string(&wide("Acme Corp")), "Acme Corp");
    let mut v = wide("1.2");
    v.extend("junk".encode_utf16());
    assert_eq!(decode_version_string(&v), "1.2");
    assert_eq!(decode_version_string(&[0x41, 0x42]), "AB");
    assert_eq!(decode_version_string(&[]), "");
}

#[test]
fn version_info_assembly() {
    let strings = VersionStrings {
        company: Some(wide("Acme")),
        product: None,
        description: Some(wide("Tool \u{2122}")),
        version: Some(wide("2.0.1")),
    };
    let info = read_version_info("C:\\tool.exe", Some(&strings));
    assert_eq!(info.company, "Acme");
    assert_eq!(info.product, "");
    assert_eq!(info.description, "Tool \u{2122}");
    assert_eq!(info.version, "2.0.1");
    let none = read_version_info("", Some(&strings));
    assert_eq!(none.company, "");
    assert_eq!(none.version, "");
    let unreadable = read_version_info("C:\\x.exe", None);
    assert_eq!(unreadable.description, "");
    let e = VersionInfo::empty();
    assert_eq!(e.product, "");
}
