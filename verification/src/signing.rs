//! Ed25519 public keys, signatures and validator addresses.

use vstd::prelude::*;
use vstd::string::StringExecFns;

verus! {

/// Whether `bytes` encode a point of the twisted Edwards form of Curve25519, that
/// is, an Ed25519 public key.
pub uninterp spec fn is_valid_public_key(bytes: Seq<u8>) -> bool;

/// Whether `signature` is an Ed25519 signature of `msg` under the public key
/// `public_key`, by the rules of `ed25519_consensus` (ZIP 215).
pub uninterp spec fn ed25519_verifies(public_key: Seq<u8>, signature: Seq<u8>, msg: Seq<u8>) -> bool;

/// Whether `bytes` decode to a public key, as `ed25519_consensus::VerificationKey::try_from`
/// decides.
///
/// The contract names the decision `is_valid_public_key(bytes)` and says nothing more of it.
#[verifier::external_body]
fn decodes_as_public_key(bytes: [u8; 32]) -> (out: bool)
    ensures
        out == is_valid_public_key(bytes@),
{
    ed25519_consensus::VerificationKey::try_from(bytes).is_ok()
}

/// Whether `signature` verifies `msg` under `public_key`: the key is decoded with
/// `ed25519_consensus::VerificationKey::try_from` and the signature checked with
/// `VerificationKey::verify`.
///
/// The contract names the outcome `ed25519_verifies(public_key, signature, msg)` and
/// says nothing more of it.
#[verifier::external_body]
fn ed25519_verify(public_key: &[u8; 32], signature: &[u8; 64], msg: &[u8]) -> (out: bool)
    ensures
        out == ed25519_verifies(public_key@, signature@, msg@),
{
    match ed25519_consensus::VerificationKey::try_from(*public_key) {
        Ok(key) => key.verify(&ed25519_consensus::Signature::from(*signature), msg).is_ok(),
        Err(_) => false,
    }
}

/// An Ed25519 public key.
#[derive(Copy, Clone, Debug, PartialEq, Eq, PartialOrd, Ord)]
pub struct PublicKey {
    bytes: [u8; 32],
}

impl PublicKey {
    /// The encoding of the key.
    pub closed spec fn spec_bytes(&self) -> Seq<u8> {
        self.bytes@
    }

    /// The state invariant: the bytes decode to a point.
    pub closed spec fn wf(&self) -> bool {
        is_valid_public_key(self.bytes@)
    }

    /// The key encoded by `bytes`, if they encode one.
    pub fn try_from_bytes(bytes: [u8; 32]) -> (out: Option<PublicKey>)
        ensures
            out is Some <==> is_valid_public_key(bytes@),
            out matches Some(k) ==> k.wf() && k.spec_bytes() == bytes@,
    {
        if decodes_as_public_key(bytes) {
            Some(PublicKey::from_bytes(bytes))
        } else {
            None
        }
    }

    /// The key encoded by `bytes`, which must encode one.
    pub fn from_bytes(bytes: [u8; 32]) -> (out: PublicKey)
        requires
            is_valid_public_key(bytes@),
        ensures
            out.wf(),
            out.spec_bytes() == bytes@,
    {
        PublicKey { bytes }
    }

    /// The encoding of the key.
    pub fn as_bytes(&self) -> (out: &[u8; 32])
        ensures
            out@ == self.spec_bytes(),
    {
        &self.bytes
    }
}

/// An Ed25519 signature.
#[derive(Copy, Clone, Debug, PartialEq, Eq)]
pub struct Signature(pub [u8; 64]);

/// Verifies Ed25519 signatures.
#[derive(Debug)]
pub struct Ed25519Verifier;

impl Ed25519Verifier {
    /// Whether `signature` is a signature of `data` under `public_key`.
    pub fn verify(data: &[u8], signature: &Signature, public_key: &PublicKey) -> (out: bool)
        ensures
            out == ed25519_verifies(public_key.spec_bytes(), signature.0@, data@),
    {
        ed25519_verify(public_key.as_bytes(), &signature.0, data)
    }
}

/// The address of a validator: its public key.
#[derive(Copy, Clone, Debug, PartialEq, Eq, PartialOrd, Ord)]
pub struct Address(pub PublicKey);

/// Why bytes are not an address.
#[derive(Copy, Clone, Debug, PartialEq, Eq)]
pub enum AddressError {
    /// The bytes are not 32 bytes long; the length they have.
    InvalidLength(usize),
    /// The 32 bytes do not encode a public key.
    InvalidPublicKey,
}

impl AddressError {
    /// A description of the error; for a wrong length, the length the bytes have.
    pub fn message(&self) -> (out: String)
        ensures
            out@ == match self {
                AddressError::InvalidLength(n) => "Invalid address length: expected 32, got "@ + decimal(*n as nat),
                AddressError::InvalidPublicKey => "Invalid public key bytes"@,
            },
    {
        match self {
            AddressError::InvalidLength(n) => {
                let text = "Invalid address length: expected 32, got ";
                let mut out = text.to_string();
                proof { vstd::string::to_string_from_display_ensures_for_str(text, out); }
                append_decimal(&mut out, *n);
                out
            },
            AddressError::InvalidPublicKey => {
                let text = "Invalid public key bytes";
                let out = text.to_string();
                proof { vstd::string::to_string_from_display_ensures_for_str(text, out); }
                out
            },
        }
    }
}

/// The character of decimal digit `d`.
pub open spec fn digit_char(d: nat) -> char {
    (d + 48) as char
}

/// The decimal digits of `n`, most significant first.
pub open spec fn decimal(n: nat) -> Seq<char>
    decreases n,
{
    if n < 10 {
        seq![digit_char(n)]
    } else {
        decimal(n / 10) + seq![digit_char(n % 10)]
    }
}

/// Appends the decimal digits of `n` to `s`.
fn append_decimal(s: &mut String, n: usize)
    ensures
        final(s)@ == old(s)@ + decimal(n as nat),
    decreases n,
{
    if n >= 10 {
        append_decimal(s, n / 10);
    }
    match n % 10 {
        0 => {
            proof { reveal_strlit("0"); }
            assert("0"@ =~= seq![digit_char(0)]);
            s.append("0");
        },
        1 => {
            proof { reveal_strlit("1"); }
            assert("1"@ =~= seq![digit_char(1)]);
            s.append("1");
        },
        2 => {
            proof { reveal_strlit("2"); }
            assert("2"@ =~= seq![digit_char(2)]);
            s.append("2");
        },
        3 => {
            proof { reveal_strlit("3"); }
            assert("3"@ =~= seq![digit_char(3)]);
            s.append("3");
        },
        4 => {
            proof { reveal_strlit("4"); }
            assert("4"@ =~= seq![digit_char(4)]);
            s.append("4");
        },
        5 => {
            proof { reveal_strlit("5"); }
            assert("5"@ =~= seq![digit_char(5)]);
            s.append("5");
        },
        6 => {
            proof { reveal_strlit("6"); }
            assert("6"@ =~= seq![digit_char(6)]);
            s.append("6");
        },
        7 => {
            proof { reveal_strlit("7"); }
            assert("7"@ =~= seq![digit_char(7)]);
            s.append("7");
        },
        8 => {
            proof { reveal_strlit("8"); }
            assert("8"@ =~= seq![digit_char(8)]);
            s.append("8");
        },
        _ => {
            proof { reveal_strlit("9"); }
            assert("9"@ =~= seq![digit_char(9)]);
            s.append("9");
        },
    }
    assert(s@ =~= old(s)@ + decimal(n as nat));
}

/// The address that `elements` encode, or why they encode none.
pub open spec fn address_from_elements(elements: Seq<u8>) -> Result<Seq<u8>, AddressError> {
    if elements.len() != 32 {
        Err(AddressError::InvalidLength(elements.len() as usize))
    } else if !is_valid_public_key(elements) {
        Err(AddressError::InvalidPublicKey)
    } else {
        Ok(elements)
    }
}

impl Address {
    /// The address of the key encoded by `bytes`, which must encode one.
    pub fn new(bytes: [u8; 32]) -> (out: Address)
        requires
            is_valid_public_key(bytes@),
        ensures
            out.0.wf(),
            out.0.spec_bytes() == bytes@,
    {
        Address::from_public_key(PublicKey::from_bytes(bytes))
    }

    /// The address of `public_key`.
    pub fn from_public_key(public_key: PublicKey) -> (out: Address)
        ensures
            out.0 == public_key,
    {
        Address(public_key)
    }

    /// The address encoded by `elements` on the wire: 32 bytes that encode a public
    /// key.
    pub fn from_proto(elements: &[u8]) -> (out: Result<Address, AddressError>)
        ensures
            match out {
                Ok(a) => address_from_elements(elements@) == Ok::<Seq<u8>, AddressError>(a.0.spec_bytes())
                    && a.0.wf(),
                Err(e) => address_from_elements(elements@) == Err::<Seq<u8>, AddressError>(e),
            },
    {
        if elements.len() != 32 {
            return Err(AddressError::InvalidLength(elements.len()));
        }
        let mut bytes = [0u8; 32];
        let mut i: usize = 0;
        while i < 32
            invariant
                0 <= i <= 32,
                elements@.len() == 32,
                forall|j: int| 0 <= j < i ==> bytes@[j] == elements@[j],
            decreases 32 - i,
        {
            bytes.set(i, elements[i]);
            i += 1;
        }
        assert(bytes@ =~= elements@);
        if decodes_as_public_key(bytes) {
            Ok(Address::new(bytes))
        } else {
            Err(AddressError::InvalidPublicKey)
        }
    }

    /// The encoding of the address on the wire.
    pub fn to_proto(&self) -> (out: Vec<u8>)
        ensures
            out@ == self.0.spec_bytes(),
    {
        let b = self.0.as_bytes();
        let mut out: Vec<u8> = Vec::new();
        let mut i: usize = 0;
        while i < 32
            invariant
                0 <= i <= 32,
                b@.len() == 32,
                out@ == b@.subrange(0, i as int),
            decreases 32 - i,
        {
            out.push(b[i]);
            i += 1;
            assert(out@ =~= b@.subrange(0, i as int));
        }
        assert(out@ =~= b@);
        out
    }
}

} // verus!
