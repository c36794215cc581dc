use peripheral_ledger::text::{chars_of, hex_encode, string_from_chars, text_equals, to_ascii_upper};

#[test]
fn ascii_upper_case() {
    assert_eq!(to_ascii_upper("usb#vid_0a1b&é"), "USB#VID_0A1B&é");
    assert_eq!(to_ascii_upper(""), "");
}

#[test]
fn lower_hex_text() {
    assert_eq!(hex_encode(&[0x00, 0x0f, 0xa5, 0xff]), "000fa5ff");
    assert_eq!(hex_encode(&[]), "");
}

#[test]
fn text_helpers() {
    assert!(text_equals("abc", "abc"));
    assert!(!text_equals("abc", "abd"));
    assert!(!text_equals("abc", "ab"));
    assert_eq!(chars_of("aé"), vec!['a', 'é']);
    assert_eq!(string_from_chars(&['x', 'é']), "xé");
}
