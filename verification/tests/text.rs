use script_frontend::text::{bytes_eq, str_eq, string_of_bytes};

#[test]
fn ascii_bytes_spell_their_characters() {
    assert_eq!(string_of_bytes(b"foobar"), "foobar");
    assert_eq!(string_of_bytes(b"838383"), "838383");
    assert_eq!(string_of_bytes(b"_a1 =;"), "_a1 =;");
    assert_eq!(string_of_bytes(b""), "");
}

#[test]
fn valid_utf8_is_decoded() {
    assert_eq!(string_of_bytes("caf\u{e9}".as_bytes()), "caf\u{e9}");
    assert_eq!(string_of_bytes(&[0xe2, 0x82, 0xac]), "\u{20ac}");
}

#[test]
fn equal_byte_slices() {
    assert!(bytes_eq(b"", b""));
    assert!(bytes_eq(b"let", b"let"));
    assert!(bytes_eq(&[0, 255, 7], &[0, 255, 7]));
}

#[test]
fn different_byte_slices() {
    assert!(!bytes_eq(b"let", b"le"));
    assert!(!bytes_eq(b"le", b"let"));
    assert!(!bytes_eq(b"let", b"lit"));
    assert!(!bytes_eq(b"let", b"leT"));
    assert!(!bytes_eq(b"", b"a"));
}

#[test]
fn equal_texts() {
    assert!(str_eq("", ""));
    assert!(str_eq("return", "return"));
    assert!(str_eq("caf\u{e9}", "caf\u{e9}"));
}

#[test]
fn different_texts() {
    assert!(!str_eq("return", "returns"));
    assert!(!str_eq("fn", "fN"));
    assert!(!str_eq("", " "));
    assert!(!str_eq("e\u{301}", "\u{e9}"));
}
