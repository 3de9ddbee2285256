use shikigami::decode::decode;

#[test]
fn valid_utf8_passes_through_unchanged() {
    assert_eq!(decode("hello 世界".as_bytes()), "hello 世界");
}

#[test]
fn empty_input_decodes_to_empty_string() {
    assert_eq!(decode(&[]), "");
}

#[test]
fn non_codepage_garbage_still_returns_something_via_lossy_fallback() {
    let garbage = [0xFF, 0xFE, 0xFF, 0xFE];
    assert!(!decode(&garbage).is_empty());
}

#[test]
fn invalid_bytes_are_replaced_and_the_rest_kept() {
    assert_eq!(decode(&[b'o', b'k', 0xFF, b'!']), "ok\u{FFFD}!");
    assert!(decode(&[0xC3]).contains('\u{FFFD}'));
}

#[test]
fn multi_byte_characters_survive() {
    let s = "é → 𝄞";
    assert_eq!(decode(s.as_bytes()), s);
}
