//! Fixed-size 32-byte hashes used to identify blocks and messages.

use vstd::prelude::*;
use core::cmp::Ordering;

verus! {

/// Whether `b` is one of the ASCII bytes `0-9` or `a-f`.
pub open spec fn is_lower_hex_digit(b: u8) -> bool {
    (0x30 <= b && b <= 0x39) || (0x61 <= b && b <= 0x66)
}

/// The value of a lower-case hex digit.
pub open spec fn lower_hex_value(b: u8) -> int {
    if 0x30 <= b && b <= 0x39 { b - 0x30 } else { b - 0x61 + 10 }
}

/// The lower-case hex digit for a nibble in `0..16`.
pub open spec fn lower_hex_digit(n: int) -> u8 {
    if n < 10 { (0x30 + n) as u8 } else { (0x61 + n - 10) as u8 }
}

/// Lower-case hexadecimal encoding: each byte becomes two digits, high nibble first.
pub open spec fn lower_hex_encoding(bytes: Seq<u8>) -> Seq<u8> {
    Seq::new(2 * bytes.len(), |i: int|
        if i % 2 == 0 { lower_hex_digit(bytes[i / 2] as int / 16) }
        else { lower_hex_digit(bytes[i / 2] as int % 16) })
}

/// Whether `text` is a well-formed lower-case hexadecimal string.
pub open spec fn is_lower_hex(text: Seq<u8>) -> bool {
    &&& text.len() % 2 == 0
    &&& forall|i: int| 0 <= i < text.len() ==> is_lower_hex_digit(#[trigger] text[i])
}

/// The bytes denoted by a well-formed lower-case hexadecimal string.
pub open spec fn lower_hex_decoding(text: Seq<u8>) -> Seq<u8> {
    Seq::new(text.len() / 2, |i: int|
        (16 * lower_hex_value(text[2 * i]) + lower_hex_value(text[2 * i + 1])) as u8)
}

/// Encodes `bytes` as lower-case hex with `subtle_encoding::hex::encode`.
///
/// The contract restates the documented behaviour of that function (two lower-case
/// digits per byte, high nibble first), which its source implements digit by digit.
#[verifier::external_body]
fn hex_encode(bytes: &[u8]) -> (out: Vec<u8>)
    ensures
        out@ == lower_hex_encoding(bytes@),
{
    subtle_encoding::hex::encode(bytes)
}

/// Decodes lower-case hex with `subtle_encoding::hex::decode`.
///
/// The source returns an error on odd length, on a trailing whitespace byte and on any
/// byte that is not `0-9`/`a-f`; otherwise it returns the decoded bytes. The contract
/// states exactly that; which error variant comes out is not stated.
#[verifier::external_body]
fn hex_decode(text: &[u8]) -> (out: Option<Vec<u8>>)
    ensures
        out is Some <==> is_lower_hex(text@),
        out matches Some(v) ==> v@ == lower_hex_decoding(text@),
{
    subtle_encoding::hex::decode(text).ok()
}

/// A 32-byte hash.
#[derive(Copy, Clone, Debug, PartialEq, Eq, PartialOrd, Ord, Hash)]
pub struct Hash(pub [u8; 32]);

/// Why a hash could not be parsed from text.
#[derive(Copy, Clone, Debug, PartialEq, Eq)]
pub enum HashParseError {
    /// The text is not well-formed lower-case hex.
    InvalidHex,
    /// The text decodes to a number of bytes other than 32.
    InvalidLength,
}

impl View for Hash {
    type V = Seq<u8>;

    open spec fn view(&self) -> Seq<u8> {
        self.0@
    }
}

/// How `a` compares with `b` byte by byte, the first differing byte deciding; a
/// proper prefix comes first.
pub open spec fn byte_order(a: Seq<u8>, b: Seq<u8>) -> Ordering
    decreases a.len(),
{
    if a.len() == 0 || b.len() == 0 {
        if a.len() < b.len() {
            Ordering::Less
        } else if a.len() > b.len() {
            Ordering::Greater
        } else {
            Ordering::Equal
        }
    } else if a[0] < b[0] {
        Ordering::Less
    } else if a[0] > b[0] {
        Ordering::Greater
    } else {
        byte_order(a.drop_first(), b.drop_first())
    }
}

/// The bytes of `a` from index `i` on.
pub open spec fn bytes_from(a: Seq<u8>, i: usize) -> Seq<u8> {
    a.subrange(i as int, a.len() as int)
}

/// The bytes of `a` after index `i`.
pub open spec fn bytes_after(a: Seq<u8>, i: usize) -> Seq<u8> {
    a.subrange(i + 1, a.len() as int)
}

/// The result of parsing `text` as a 32-byte hash.
pub open spec fn parse_hash_spec(text: Seq<u8>) -> Result<Seq<u8>, HashParseError> {
    if !is_lower_hex(text) {
        Err(HashParseError::InvalidHex)
    } else if lower_hex_decoding(text).len() != 32 {
        Err(HashParseError::InvalidLength)
    } else {
        Ok(lower_hex_decoding(text))
    }
}

/// Copies a 32-byte slice into an array.
fn to_array32(v: &Vec<u8>) -> (out: [u8; 32])
    requires
        v@.len() == 32,
    ensures
        out@ == v@,
{
    let mut out = [0u8; 32];
    let mut i: usize = 0;
    while i < 32
        invariant
            0 <= i <= 32,
            v@.len() == 32,
            out@.len() == 32,
            forall|j: int| 0 <= j < i ==> out@[j] == v@[j],
        decreases 32 - i,
    {
        out[i] = v[i];
        i += 1;
    }
    assert(out@ =~= v@);
    out
}

/// Parses lower-case hex into a 32-byte array.
fn parse_hex32(text: &[u8]) -> (out: Result<[u8; 32], HashParseError>)
    ensures
        match (out, parse_hash_spec(text@)) {
            (Ok(a), Ok(b)) => a@ == b,
            (Err(e), Err(f)) => e == f,
            _ => false,
        },
{
    match hex_decode(text) {
        None => Err(HashParseError::InvalidHex),
        Some(bytes) => {
            if bytes.len() != 32 {
                Err(HashParseError::InvalidLength)
            } else {
                Ok(to_array32(&bytes))
            }
        },
    }
}

impl Hash {
    /// How this hash compares with `other`: byte by byte, the first differing byte
    /// deciding.
    pub fn compare(&self, other: &Hash) -> (out: Ordering)
        ensures
            out == byte_order(self@, other@),
    {
        let mut i: usize = 0;
        assert(bytes_from(self@, i) =~= self@);
        assert(bytes_from(other@, i) =~= other@);
        while i < 32
            invariant
                0 <= i <= 32,
                self@.len() == 32,
                other@.len() == 32,
                byte_order(self@, other@) == byte_order(bytes_from(self@, i), bytes_from(other@, i)),
            decreases 32 - i,
        {
            let x = self.0[i];
            let y = other.0[i];
            assert(bytes_from(self@, i)[0] == x && bytes_from(other@, i)[0] == y);
            if x < y {
                return Ordering::Less;
            }
            if x > y {
                return Ordering::Greater;
            }
            assert(bytes_from(self@, i).drop_first() =~= bytes_after(self@, i));
            assert(bytes_from(other@, i).drop_first() =~= bytes_after(other@, i));
            i += 1;
        }
        assert(bytes_from(self@, i).len() == 0 && bytes_from(other@, i).len() == 0);
        Ordering::Equal
    }

    /// Wraps 32 raw bytes.
    pub fn new(hash: [u8; 32]) -> (out: Hash)
        ensures
            out.0 == hash,
    {
        Hash(hash)
    }

    /// The raw bytes of the hash.
    pub fn as_bytes(&self) -> (out: &[u8; 32])
        ensures
            *out == self.0,
    {
        &self.0
    }

    /// The lower-case hex rendering of the hash, as ASCII bytes.
    pub fn to_hex(&self) -> (out: Vec<u8>)
        ensures
            out@ == lower_hex_encoding(self@),
            out@.len() == 64,
    {
        hex_encode(self.0.as_slice())
    }

    /// Parses a hash from its lower-case hex rendering.
    pub fn from_hex(text: &[u8]) -> (out: Result<Hash, HashParseError>)
        ensures
            match (out, parse_hash_spec(text@)) {
                (Ok(h), Ok(b)) => h@ == b,
                (Err(e), Err(f)) => e == f,
                _ => false,
            },
    {
        match parse_hex32(text) {
            Ok(a) => Ok(Hash(a)),
            Err(e) => Err(e),
        }
    }
}

/// The hash identifying a block.
#[derive(Copy, Clone, Debug, PartialEq, Eq, PartialOrd, Ord, Hash)]
pub struct BlockHash(pub Hash);

impl BlockHash {
    /// How this hash compares with `other`: byte by byte.
    pub fn compare(&self, other: &BlockHash) -> (out: Ordering)
        ensures
            out == byte_order(self.0@, other.0@),
    {
        self.0.compare(&other.0)
    }

    /// Wraps 32 raw bytes.
    pub fn new(hash: [u8; 32]) -> (out: BlockHash)
        ensures
            out.0.0 == hash,
    {
        BlockHash(Hash::new(hash))
    }

    /// The raw bytes of the hash.
    pub fn as_bytes(&self) -> (out: &[u8; 32])
        ensures
            *out == self.0.0,
    {
        self.0.as_bytes()
    }

    /// Parses a block hash from its lower-case hex rendering.
    pub fn from_hex(text: &[u8]) -> (out: Result<BlockHash, HashParseError>)
        ensures
            match (out, parse_hash_spec(text@)) {
                (Ok(h), Ok(b)) => h.0@ == b,
                (Err(e), Err(f)) => e == f,
                _ => false,
            },
    {
        match parse_hex32(text) {
            Ok(a) => Ok(BlockHash(Hash(a))),
            Err(e) => Err(e),
        }
    }
}

/// The hash identifying a signed message.
#[derive(Copy, Clone, Debug, PartialEq, Eq, Hash)]
pub struct MessageHash(pub Hash);

impl MessageHash {
    /// Wraps 32 raw bytes.
    pub fn new(hash: [u8; 32]) -> (out: MessageHash)
        ensures
            out.0.0 == hash,
    {
        MessageHash(Hash::new(hash))
    }

    /// The raw bytes of the hash.
    pub fn as_bytes(&self) -> (out: &[u8; 32])
        ensures
            *out == self.0.0,
    {
        self.0.as_bytes()
    }

    /// Parses a message hash from its lower-case hex rendering.
    pub fn from_hex(text: &[u8]) -> (out: Result<MessageHash, HashParseError>)
        ensures
            match (out, parse_hash_spec(text@)) {
                (Ok(h), Ok(b)) => h.0@ == b,
                (Err(e), Err(f)) => e == f,
                _ => false,
            },
    {
        match parse_hex32(text) {
            Ok(a) => Ok(MessageHash(Hash(a))),
            Err(e) => Err(e),
        }
    }
}

/// A nibble's digit is a lower-case hex digit whose value is the nibble.
pub proof fn lemma_hex_digit(n: int)
    requires
        0 <= n < 16,
    ensures
        is_lower_hex_digit(lower_hex_digit(n)),
        lower_hex_value(lower_hex_digit(n)) == n,
{
}

/// Decoding the lower-case hex encoding of bytes gives the bytes back.
pub proof fn lemma_hex_round_trip(bytes: Seq<u8>)
    ensures
        is_lower_hex(lower_hex_encoding(bytes)),
        lower_hex_decoding(lower_hex_encoding(bytes)) == bytes,
{
    let text = lower_hex_encoding(bytes);
    assert forall|i: int| 0 <= i < text.len() implies is_lower_hex_digit(#[trigger] text[i]) by {
        let b = bytes[i / 2] as int;
        assert(0 <= b / 16 < 16) by (nonlinear_arith) requires 0 <= b < 256;
        assert(0 <= b % 16 < 16) by (nonlinear_arith) requires 0 <= b < 256;
        lemma_hex_digit(b / 16);
        lemma_hex_digit(b % 16);
    }
    assert(text.len() % 2 == 0);
    let d = lower_hex_decoding(text);
    assert forall|i: int| 0 <= i < bytes.len() implies #[trigger] d[i] == bytes[i] by {
        let b = bytes[i] as int;
        assert((2 * i) / 2 == i && (2 * i + 1) / 2 == i && (2 * i) % 2 == 0 && (2 * i + 1) % 2 == 1);
        assert(0 <= b / 16 < 16) by (nonlinear_arith) requires 0 <= b < 256;
        assert(0 <= b % 16 < 16) by (nonlinear_arith) requires 0 <= b < 256;
        lemma_hex_digit(b / 16);
        lemma_hex_digit(b % 16);
        assert(16 * (b / 16) + b % 16 == b) by (nonlinear_arith) requires 0 <= b < 256;
    }
    assert(d =~= bytes);
}

/// A hash written as hex by `to_hex` parses back to itself with `from_hex`.
pub proof fn lemma_hash_hex_round_trip(h: Hash)
    ensures
        parse_hash_spec(lower_hex_encoding(h@)) == Ok::<Seq<u8>, HashParseError>(h@),
{
    lemma_hex_round_trip(h@);
}

} // verus!
