use malachite::signing::{Address, AddressError, Ed25519Verifier, PublicKey, Signature};

#[test]
fn from_proto_rejects_invalid_public_key_bytes() {
    let mut bytes = [0u8; 32];
    for candidate in 0u8..=255 {
        bytes[0] = candidate;
        if PublicKey::try_from_bytes(bytes).is_none() {
            let result = Address::from_proto(&bytes);
            assert!(result.is_err(), "expected error for invalid public key bytes");
            let err_msg = result.unwrap_err().message();
            assert!(err_msg.contains("Invalid public key bytes"), "unexpected error message: {err_msg}");
            return;
        }
    }
    panic!("could not find invalid Ed25519 public key bytes for test");
}

#[test]
fn from_proto_rejects_wrong_length() {
    let result = Address::from_proto(&[0; 16]);
    assert!(result.is_err());
    assert_eq!(result.unwrap_err(), AddressError::InvalidLength(16));
}

fn basepoint() -> [u8; 32] {
    let mut b = [0x66u8; 32];
    b[0] = 0x58;
    b
}

#[test]
fn address_round_trip() {
    let a = Address::from_proto(&basepoint()).expect("the base point is a public key");
    assert_eq!(a.to_proto(), basepoint().to_vec());
    assert_eq!(Address::new(basepoint()), a);
    assert_eq!(a.0.as_bytes(), &basepoint());
}

#[test]
fn verify_rejects_a_wrong_signature() {
    let key = PublicKey::from_bytes(basepoint());
    assert!(!Ed25519Verifier::verify(b"data", &Signature([0; 64]), &key));
}

#[test]
fn wrong_length_message_gives_the_length() {
    assert_eq!(AddressError::InvalidLength(16).message(), "Invalid address length: expected 32, got 16");
    assert_eq!(AddressError::InvalidLength(0).message(), "Invalid address length: expected 32, got 0");
    assert_eq!(AddressError::InvalidLength(1234).message(), "Invalid address length: expected 32, got 1234");
    assert_eq!(AddressError::InvalidPublicKey.message(), "Invalid public key bytes");
}
