use forjj::object_id::{ObjectId, ObjectIdError, HASH_LEN, HEX_LEN};

#[test]
fn object_id_hash_is_deterministic() {
    let id1 = ObjectId::hash(b"test");
    let id2 = ObjectId::hash(b"test");
    assert_eq!(id1, id2);
}

#[test]
fn test_hash_produces_consistent_results() {
    let id1 = ObjectId::hash(b"hello, forjj!");
    let id2 = ObjectId::hash(b"hello, forjj!");
    assert_eq!(id1, id2);
}

#[test]
fn test_different_data_produces_different_hashes() {
    let id1 = ObjectId::hash(b"hello");
    let id2 = ObjectId::hash(b"world");
    assert_ne!(id1, id2);
}

#[test]
fn test_hex_roundtrip() {
    let original = ObjectId::hash(b"test data");
    let hex = original.to_hex();
    let parsed = ObjectId::from_hex(&hex).unwrap();
    assert_eq!(original, parsed);
}

#[test]
fn test_from_hex_invalid_length() {
    let result = ObjectId::from_hex("0123");
    assert!(matches!(
        result,
        Err(ObjectIdError::InvalidHexLength { .. })
    ));
}

#[test]
fn test_from_hex_invalid_character() {
    let invalid = "g".repeat(64);
    let result = ObjectId::from_hex(&invalid);
    assert!(matches!(result, Err(ObjectIdError::InvalidHexCharacter)));
}

#[test]
fn hash_is_blake2b_256() {
    assert_eq!(
        ObjectId::hash(b"").to_hex(),
        "0e5751c026e543b2e8ab2eb06099daa1d1e5df47778f7787faab45cdf12fe3a8"
    );
    assert_eq!(
        ObjectId::hash(b"hello").to_hex(),
        "324dcf027dd4a30a932c441f365a25e86b173defa4b8e58948253471b81b72cf"
    );
}

#[test]
fn hash_is_not_the_input() {
    let data = [7u8; HASH_LEN];
    assert_ne!(ObjectId::hash(&data).as_bytes(), &data);
}

#[test]
fn to_hex_is_lowercase_two_digits_per_byte() {
    let mut bytes = [0u8; HASH_LEN];
    bytes[0] = 0x01;
    bytes[1] = 0xab;
    bytes[2] = 0xf0;
    bytes[31] = 0xff;
    let hex = ObjectId::from_bytes(bytes).to_hex();
    assert_eq!(hex.len(), HEX_LEN);
    assert_eq!(
        hex,
        "01abf000000000000000000000000000000000000000000000000000000000ff"
    );
}

#[test]
fn from_hex_reads_both_cases() {
    let lower = "01abf000000000000000000000000000000000000000000000000000000000ff";
    let upper = "01ABF000000000000000000000000000000000000000000000000000000000FF";
    let mixed = "01aBf000000000000000000000000000000000000000000000000000000000Ff";
    let id = ObjectId::from_hex(lower).unwrap();
    assert_eq!(id.as_bytes()[0], 0x01);
    assert_eq!(id.as_bytes()[1], 0xab);
    assert_eq!(id.as_bytes()[2], 0xf0);
    assert_eq!(id.as_bytes()[3], 0x00);
    assert_eq!(id.as_bytes()[31], 0xff);
    assert_eq!(ObjectId::from_hex(upper).unwrap(), id);
    assert_eq!(ObjectId::from_hex(mixed).unwrap(), id);
}

#[test]
fn hex_round_trip_for_many_identifiers() {
    for seed in 0u16..300 {
        let mut bytes = [0u8; HASH_LEN];
        for (i, b) in bytes.iter_mut().enumerate() {
            *b = (seed as usize * 31 + i * 7 + (seed as usize >> 3)) as u8;
        }
        let id = ObjectId::from_bytes(bytes);
        assert_eq!(ObjectId::from_hex(&id.to_hex()), Ok(id));
    }
}

#[test]
fn from_hex_reports_the_byte_length() {
    assert_eq!(
        ObjectId::from_hex(""),
        Err(ObjectIdError::InvalidHexLength { expected: 64, actual: 0 })
    );
    let long = "0".repeat(65);
    assert_eq!(
        ObjectId::from_hex(&long),
        Err(ObjectIdError::InvalidHexLength { expected: 64, actual: 65 })
    );
    // 32 two-byte characters are 64 bytes: the length passes, the digits do not.
    let wide = "é".repeat(32);
    assert_eq!(wide.len(), 64);
    assert_eq!(ObjectId::from_hex(&wide), Err(ObjectIdError::InvalidHexCharacter));
    // 64 characters that take more than 64 bytes fail on the length.
    let wider = "é".repeat(64);
    assert_eq!(
        ObjectId::from_hex(&wider),
        Err(ObjectIdError::InvalidHexLength { expected: 64, actual: 128 })
    );
}

#[test]
fn from_hex_rejects_one_bad_digit() {
    let mut text = "0".repeat(63);
    text.push('x');
    assert_eq!(ObjectId::from_hex(&text), Err(ObjectIdError::InvalidHexCharacter));
    let mut text = String::from(" ");
    text.push_str(&"0".repeat(63));
    assert_eq!(ObjectId::from_hex(&text), Err(ObjectIdError::InvalidHexCharacter));
}

#[test]
fn from_slice_checks_the_length() {
    let bytes = [9u8; HASH_LEN];
    let id = ObjectId::from_slice(&bytes).unwrap();
    assert_eq!(id.as_bytes(), &bytes);
    assert_eq!(id, ObjectId::from_bytes(bytes));
    assert_eq!(
        ObjectId::from_slice(&bytes[..31]),
        Err(ObjectIdError::InvalidLength { expected: 32, actual: 31 })
    );
    assert_eq!(
        ObjectId::from_slice(&[0u8; 33]),
        Err(ObjectIdError::InvalidLength { expected: 32, actual: 33 })
    );
    assert_eq!(
        ObjectId::from_slice(&[]),
        Err(ObjectIdError::InvalidLength { expected: 32, actual: 0 })
    );
}

#[test]
fn equality_is_byte_wise() {
    let a = ObjectId::from_bytes([1u8; HASH_LEN]);
    let mut other = [1u8; HASH_LEN];
    other[31] = 2;
    let b = ObjectId::from_bytes(other);
    assert_ne!(a, b);
    assert!(!a.same(&b));
    assert!(a.same(&ObjectId::from_bytes([1u8; HASH_LEN])));
}

#[test]
fn ordering_is_byte_wise() {
    let low = ObjectId::from_bytes([0u8; HASH_LEN]);
    let mut bytes = [0u8; HASH_LEN];
    bytes[31] = 1;
    let last_byte = ObjectId::from_bytes(bytes);
    let mut bytes = [0u8; HASH_LEN];
    bytes[0] = 1;
    let first_byte = ObjectId::from_bytes(bytes);
    let mut bytes = [0xffu8; HASH_LEN];
    bytes[0] = 0;
    let high_tail = ObjectId::from_bytes(bytes);
    assert!(low < last_byte);
    assert!(last_byte < first_byte);
    assert!(high_tail < first_byte);
    assert!(last_byte < high_tail);
    assert!(first_byte > low);
    assert!(low <= low && low >= low);
    assert_eq!(low.partial_cmp(&low), Some(std::cmp::Ordering::Equal));
    assert_eq!(low.partial_cmp(&first_byte), Some(std::cmp::Ordering::Less));
    assert_eq!(first_byte.partial_cmp(&high_tail), Some(std::cmp::Ordering::Greater));
    assert_eq!(first_byte.cmp(&high_tail), std::cmp::Ordering::Greater);
    let mut ids = vec![first_byte, low, high_tail, last_byte];
    ids.sort();
    assert_eq!(ids, vec![low, last_byte, high_tail, first_byte]);
}

#[test]
fn short_form_is_the_first_twelve_digits() {
    let id = ObjectId::hash(b"hello");
    assert_eq!(id.short_hex(), "324dcf027dd4");
    assert_eq!(id.short_hex(), &id.to_hex()[..12]);
    assert_eq!(id.debug_string(), "ObjectId(324dcf027dd4)");
    let zero = ObjectId::from_bytes([0u8; HASH_LEN]);
    assert_eq!(zero.short_hex(), "000000000000");
    assert_eq!(zero.debug_string(), "ObjectId(000000000000)");
    let mut bytes = [0u8; HASH_LEN];
    bytes[5] = 0xab;
    bytes[6] = 0xff;
    assert_eq!(ObjectId::from_bytes(bytes).short_hex(), "0000000000ab");
}
