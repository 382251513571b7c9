use malachite::hash::{BlockHash, HashParseError, MessageHash};

#[test]
fn hashes_wrap_bytes() {
    let h = malachite::hash::Hash::new([3; 32]);
    assert_eq!(h.as_bytes(), &[3; 32]);
    assert_eq!(BlockHash::new([4; 32]).as_bytes(), &[4; 32]);
    assert_eq!(MessageHash::new([5; 32]).as_bytes(), &[5; 32]);
}

#[test]
fn hex_round_trip() {
    let mut bytes = [0u8; 32];
    bytes[0] = 0xab;
    bytes[31] = 0x01;
    let h = malachite::hash::Hash::new(bytes);
    let text = h.to_hex();
    assert_eq!(text.len(), 64);
    assert_eq!(&text[0..2], b"ab");
    assert_eq!(&text[62..64], b"01");
    assert_eq!(malachite::hash::Hash::from_hex(&text), Ok(h));
    assert_eq!(BlockHash::from_hex(&text).map(|b| *b.as_bytes()), Ok(bytes));
}

#[test]
fn hex_errors() {
    assert_eq!(malachite::hash::Hash::from_hex(b"zz"), Err(HashParseError::InvalidHex));
    assert_eq!(malachite::hash::Hash::from_hex(b"abcd"), Err(HashParseError::InvalidLength));
    assert_eq!(MessageHash::from_hex(b"AB").map(|_| ()), Err(HashParseError::InvalidHex));
}
