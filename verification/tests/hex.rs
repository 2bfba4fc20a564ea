use bmap_parser::hexdigit_to_u8;
use bmap_parser::str_to_digest;
use bmap_parser::XmlError;

#[test]
fn hex_digits() {
    assert_eq!(Some(0), hexdigit_to_u8(b'0'));
    assert_eq!(Some(9), hexdigit_to_u8(b'9'));
    assert_eq!(Some(10), hexdigit_to_u8(b'a'));
    assert_eq!(Some(15), hexdigit_to_u8(b'f'));
    assert_eq!(Some(10), hexdigit_to_u8(b'A'));
    assert_eq!(Some(15), hexdigit_to_u8(b'F'));
    assert_eq!(None, hexdigit_to_u8(b'g'));
    assert_eq!(None, hexdigit_to_u8(b' '));
    assert_eq!(None, hexdigit_to_u8(b'-'));
}

#[test]
fn digest_decodes_sixty_four_hex_chars() {
    let text = "000102030405060708090a0b0c0d0e0f\
                101112131415161718191a1b1c1d1e1F";
    let mut digest = vec![0u8; 32];
    str_to_digest(text, &mut digest).unwrap();
    let expected: Vec<u8> = (0u8..32).collect();
    assert_eq!(expected, digest);
}

#[test]
fn digest_rejects_odd_length() {
    let text = "abc";
    let mut digest = vec![0u8; 32];
    match str_to_digest(text, &mut digest) {
        Err(XmlError::InvalidChecksum(t)) => assert_eq!("abc", t),
        other => panic!("expected InvalidChecksum, got {:?}", other),
    }
}

#[test]
fn digest_rejects_wrong_length() {
    // valid hex, but not twice the digest size
    let text = "abcd";
    let mut digest = vec![0u8; 32];
    assert!(matches!(
        str_to_digest(text, &mut digest),
        Err(XmlError::InvalidChecksum(_))
    ));
}

#[test]
fn digest_rejects_non_hex_character() {
    let mut text = "ab".repeat(32);
    text.replace_range(10..11, "g");
    let mut digest = vec![0u8; 32];
    assert!(matches!(
        str_to_digest(&text, &mut digest),
        Err(XmlError::InvalidChecksum(_))
    ));
}

#[test]
fn digest_mixed_case() {
    let text = "Ff".repeat(32);
    let mut digest = vec![0u8; 32];
    str_to_digest(&text, &mut digest).unwrap();
    assert_eq!(vec![0xFF; 32], digest);
}
