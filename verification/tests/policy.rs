use filebase::ReadOnly;

#[test]
fn nothing_is_editable() {
    for path in [
        vec![],
        vec!["title".to_owned()],
        vec!["governance".to_owned(), "owner".to_owned()],
        vec!["slipcase_version".to_owned()],
    ] {
        assert!(ReadOnly.protected(&path), "{path:?} should not be editable");
    }
}

#[test]
fn nothing_can_be_added() {
    for path in [
        vec![],
        vec!["governance".to_owned()],
        vec!["tags".to_owned()],
    ] {
        assert!(ReadOnly.sealed(&path), "{path:?} should accept nothing new");
    }
}

#[test]
fn a_direction_override_is_escaped_and_ordinary_text_is_not() {
    let spoof = "report\u{202E}fdp.exe";
    let shown = ReadOnly.display_protected(spoof);
    assert!(!shown.contains('\u{202E}'), "{shown}");

    let plain = "Master services agreement";
    assert_eq!(ReadOnly.display_protected(plain), plain);
}

#[test]
fn a_backslash_is_doubled_so_an_escape_cannot_be_spelled() {
    assert_eq!(
        ReadOnly.display_protected("report\\u{202E}fdp.exe"),
        "report\\\\u{202E}fdp.exe"
    );
    assert_ne!(
        ReadOnly.display_protected("report\\u{202E}fdp.exe"),
        ReadOnly.display_protected("report\u{202E}fdp.exe")
    );
}

#[test]
fn every_bidi_formatting_character_is_escaped_in_four_digits() {
    for c in [
        '\u{061C}', '\u{200E}', '\u{200F}', '\u{202A}', '\u{202B}', '\u{202C}', '\u{202D}',
        '\u{202E}', '\u{2066}', '\u{2067}', '\u{2068}', '\u{2069}',
    ] {
        let shown = ReadOnly.display_protected(&format!("a{c}b"));
        assert_eq!(shown, format!("a\\u{{{:04X}}}b", c as u32));
    }
    for c in ['\u{061B}', '\u{200D}', '\u{2060}', '\u{206A}', 'é', '日'] {
        let value = format!("a{c}b");
        assert_eq!(ReadOnly.display_protected(&value), value);
    }
}
