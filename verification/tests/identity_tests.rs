use struxio::identity::{
    hex_string, ContractIdentity, ContractSlug, IdentityError, PositiveVersion, Sha256ContentHash,
};

#[test]
fn slug_rejects_empty_and_uppercase() {
    assert_eq!(ContractSlug::new("".to_string()), Err(IdentityError::EmptySlug));
    assert_eq!(
        ContractSlug::new("Invoice".to_string()),
        Err(IdentityError::InvalidSlug)
    );
    assert_eq!(
        ContractSlug::new("in--voice".to_string()),
        Err(IdentityError::InvalidSlug)
    );
    assert!(ContractSlug::new("invoice-v2".to_string()).is_ok());
}

#[test]
fn version_must_be_positive() {
    assert_eq!(PositiveVersion::new(0), Err(IdentityError::NonPositiveVersion));
    assert_eq!(PositiveVersion::new(1).unwrap().get(), 1);
}

#[test]
fn content_hash_round_trips_hex() {
    let hash = Sha256ContentHash::from_content(b"payload");
    let parsed: Sha256ContentHash = hash.as_hex().parse().unwrap();
    assert_eq!(hash, parsed);
}

#[test]
fn slug_edges() {
    assert_eq!(ContractSlug::new("-invoice".to_string()), Err(IdentityError::InvalidSlug));
    assert_eq!(ContractSlug::new("invoice-".to_string()), Err(IdentityError::InvalidSlug));
    assert_eq!(ContractSlug::new("in voice".to_string()), Err(IdentityError::InvalidSlug));
    assert_eq!(ContractSlug::new("a".to_string()).unwrap().as_str(), "a");
    assert_eq!(ContractSlug::new("a1-b2".to_string()).unwrap().as_str(), "a1-b2");
}

#[test]
fn sha256_of_known_content() {
    let hash = Sha256ContentHash::from_content(b"abc");
    assert_eq!(
        hash.as_hex(),
        "ba7816bf8f01cfea414140de5dae2223b00361a396177a9cb410ff61f20015ad"
    );
    let empty = Sha256ContentHash::from_content(b"");
    assert_eq!(
        empty.as_hex(),
        "e3b0c44298fc1c149afbf4c8996fb92427ae41e4649b934ca495991b7852b855"
    );
}

#[test]
fn hex_parsing_rejects_bad_input() {
    assert_eq!(Sha256ContentHash::from_hex("abc"), Err(IdentityError::InvalidHash));
    let upper = "BA7816BF8F01CFEA414140DE5DAE2223B00361A396177A9CB410FF61F20015AD";
    assert_eq!(
        Sha256ContentHash::from_hex(upper).unwrap(),
        Sha256ContentHash::from_content(b"abc")
    );
    let bad = "zz7816bf8f01cfea414140de5dae2223b00361a396177a9cb410ff61f20015ad";
    assert_eq!(Sha256ContentHash::from_hex(bad), Err(IdentityError::InvalidHash));
    assert!("nothex".parse::<Sha256ContentHash>().is_err());
}

#[test]
fn hex_string_is_lowercase_two_digits_per_byte() {
    assert_eq!(hex_string(&[0x00, 0x0f, 0xa0, 0xff]), "000fa0ff");
    assert_eq!(hex_string(&[]), "");
}

#[test]
fn identity_keeps_its_parts() {
    let slug = ContractSlug::new("invoice".to_string()).unwrap();
    let version = PositiveVersion::new(3).unwrap();
    let hash = Sha256ContentHash::from_bytes([7u8; 32]);
    let identity = ContractIdentity::new(slug.clone(), version, hash);
    assert_eq!(identity.slug(), &slug);
    assert_eq!(identity.version().get(), 3);
    assert_eq!(identity.content_hash().as_bytes(), &[7u8; 32]);
}

#[test]
fn identity_error_texts() {
    assert_eq!(IdentityError::EmptySlug.message(), "contract slug must not be empty");
}

#[test]
fn hex_is_two_lowercase_digits_per_byte() {
    let mut bytes = [0u8; 32];
    bytes[0] = 0xab;
    bytes[31] = 0x0f;
    let hex = Sha256ContentHash::from_bytes(bytes).as_hex();
    assert_eq!(hex.len(), 64);
    assert!(hex.starts_with("ab00"));
    assert!(hex.ends_with("000f"));
    assert!(hex.chars().all(|c| c.is_ascii_digit() || ('a'..='f').contains(&c)));
}
