use jsonguard::GuardInput;

#[test]
fn str_input_not_lossy() {
    let (text, lossy) = "hello".as_utf8_lossy();
    assert_eq!(text, "hello");
    assert!(!lossy);
}

#[test]
fn bytes_valid_utf8_not_lossy() {
    let (text, lossy) = b"hello".as_utf8_lossy();
    assert_eq!(text, "hello");
    assert!(!lossy);
}

#[test]
fn bytes_invalid_utf8_is_lossy() {
    let (text, lossy) = b"\xFF\xFE".as_utf8_lossy();
    assert!(text.contains('\u{FFFD}'));
    assert!(lossy);
}

#[test]
fn bytes_big5_0x5c_second_byte() {
    // Big5 許 is 0xB3 0x5C: 0xB3 is not a UTF-8 lead byte and becomes U+FFFD,
    // 0x5C stays a backslash, which the sanitizers then escape.
    let (text, lossy) = b"\xB3\x5C".as_utf8_lossy();
    assert!(lossy);
    assert!(text.contains('\u{FFFD}'));
    assert!(text.contains('\\'));
}

#[test]
fn string_input_reads_as_itself() {
    let owned = String::from("caf\u{e9}");
    let (text, lossy) = (&owned).as_utf8_lossy();
    assert_eq!(text, "caf\u{e9}");
    assert!(!lossy);
    assert!((&owned).raw_bytes().is_none());
}

#[test]
fn raw_bytes_only_for_byte_input() {
    assert!("abc".raw_bytes().is_none());
    let bytes: &[u8] = b"abc";
    assert_eq!(bytes.raw_bytes(), Some(&b"abc"[..]));
    assert_eq!(b"xy".raw_bytes(), Some(&b"xy"[..]));
}

#[test]
fn bytes_decode_exactly_when_valid() {
    let (text, lossy) = "\u{8a31}\u{1F600}".as_bytes().as_utf8_lossy();
    assert_eq!(text, "\u{8a31}\u{1F600}");
    assert!(!lossy);
}
