use bmap_parser::HashType;
use bmap_parser::HashValue;

#[test]
fn hashes() {
    assert_eq!("sha256", &HashType::Sha256.to_string());
    assert_eq!(HashType::Sha256, HashType::from_str("sha256").unwrap());
    let h = HashValue::Sha256([0; 32]);
    assert_eq!(HashType::Sha256, h.to_type());
}

#[test]
fn hash_type_token_round_trip() {
    let token = HashType::Sha256.to_string();
    assert_eq!(Some(HashType::Sha256), HashType::from_str(&token));
    assert_eq!(None, HashType::from_str("SHA256"));
    assert_eq!(None, HashType::from_str(" sha256"));
    assert_eq!(None, HashType::from_str("md5"));
    assert_eq!(32, HashType::Sha256.digest_size());
}

#[test]
fn hash_value_views() {
    let mut raw = [0u8; 32];
    for (i, b) in raw.iter_mut().enumerate() {
        *b = i as u8;
    }
    let h = HashValue::Sha256(raw);
    assert_eq!(&raw[..], h.as_slice());
}
