//! Node identities: 256-bit fingerprints pinned by the registry, their hex
//! form, and the exact comparison used during connection setup.
use vstd::prelude::*;
use vstd::string::StringSliceAdditionalSpecFns;

verus! {

/// A 256-bit identity fingerprint, held as four big-endian 64-bit words.
#[derive(Clone, Copy, Debug, PartialEq, Eq, Structural)]
pub struct Fingerprint {
    pub w0: u64,
    pub w1: u64,
    pub w2: u64,
    pub w3: u64,
}

/// Why a textual fingerprint was refused.
#[derive(Clone, Copy, Debug, PartialEq, Eq, Structural)]
pub enum FingerprintError {
    /// The text is not an even number of hex digits.
    NotHex,
    /// The text decodes to a number of bytes other than 32.
    WrongLength,
}

/// The value of one ASCII hex digit, or -1 for any other byte.
pub open spec fn hex_digit_value(c: u8) -> int {
    if 48 <= c <= 57 {
        c - 48
    } else if 97 <= c <= 102 {
        c - 87
    } else if 65 <= c <= 70 {
        c - 55
    } else {
        -1
    }
}

/// Text made of pairs of hex digits (either case).
pub open spec fn is_hex_text(s: Seq<u8>) -> bool {
    &&& s.len() % 2 == 0
    &&& forall|i: int| 0 <= i < s.len() ==> hex_digit_value(#[trigger] s[i]) >= 0
}

/// The bytes that hex text stands for, two digits per byte, high digit first.
pub open spec fn hex_decoded(s: Seq<u8>) -> Seq<u8> {
    Seq::new(
        (s.len() / 2) as nat,
        |i: int| (16 * hex_digit_value(s[2 * i]) + hex_digit_value(s[2 * i + 1])) as u8,
    )
}

/// The big-endian word made of the eight bytes of `b` from `8 * k` on.
pub open spec fn word_at(b: Seq<u8>, k: int) -> u64 {
    ((b[8 * k] as u64) << 56u64) | ((b[8 * k + 1] as u64) << 48u64) | ((b[8 * k + 2] as u64)
        << 40u64) | ((b[8 * k + 3] as u64) << 32u64) | ((b[8 * k + 4] as u64) << 24u64) | ((b[8
        * k + 5] as u64) << 16u64) | ((b[8 * k + 6] as u64) << 8u64) | (b[8 * k + 7] as u64)
}

/// The fingerprint whose 32 bytes are `b`.
pub open spec fn fingerprint_of(b: Seq<u8>) -> Fingerprint {
    Fingerprint { w0: word_at(b, 0), w1: word_at(b, 1), w2: word_at(b, 2), w3: word_at(b, 3) }
}

/// Relies on hex::decode: it accepts exactly an even number of hex digits of
/// either case, and decodes each pair, high digit first, into one byte.
#[verifier::external_body]
fn decode_hex(s: &[u8]) -> (r: Result<Vec<u8>, hex::FromHexError>)
    ensures
        r is Ok <==> is_hex_text(s@),
        r is Ok ==> r->Ok_0@ == hex_decoded(s@),
{
    hex::decode(s)
}

#[verifier::external_type_specification]
#[verifier::external_body]
pub struct ExFromHexError(hex::FromHexError);

fn word_from(b: &[u8], k: usize) -> (r: u64)
    requires
        b@.len() == 32,
        k < 4,
    ensures
        r == word_at(b@, k as int),
{
    let i = 8 * k;
    ((b[i] as u64) << 56u64) | ((b[i + 1] as u64) << 48u64) | ((b[i + 2] as u64) << 40u64) | ((b[i
        + 3] as u64) << 32u64) | ((b[i + 4] as u64) << 24u64) | ((b[i + 5] as u64) << 16u64) | ((b[i
        + 6] as u64) << 8u64) | (b[i + 7] as u64)
}

impl Fingerprint {
    /// The fingerprint made of exactly 32 bytes.
    pub fn from_bytes(b: &[u8]) -> (r: Option<Fingerprint>)
        ensures
            r is Some <==> b@.len() == 32,
            r is Some ==> r->Some_0 == fingerprint_of(b@),
    {
        if b.len() != 32 {
            return None;
        }
        Some(
            Fingerprint {
                w0: word_from(b, 0),
                w1: word_from(b, 1),
                w2: word_from(b, 2),
                w3: word_from(b, 3),
            },
        )
    }

    /// Parses the 64-hex-digit text of a fingerprint (as the registry feed
    /// carries it).
    pub fn parse_hex(s: &str) -> (r: Result<Fingerprint, FingerprintError>)
        ensures
            !is_hex_text(s.spec_bytes()) <==> r == Err::<Fingerprint, FingerprintError>(
                FingerprintError::NotHex,
            ),
            is_hex_text(s.spec_bytes()) && hex_decoded(s.spec_bytes()).len() != 32 <==> r
                == Err::<Fingerprint, FingerprintError>(FingerprintError::WrongLength),
            r is Ok ==> r->Ok_0 == fingerprint_of(hex_decoded(s.spec_bytes())),
    {
        let bytes = s.as_bytes();
        match decode_hex(bytes) {
            Err(_) => Err(FingerprintError::NotHex),
            Ok(v) => match Fingerprint::from_bytes(v.as_slice()) {
                Some(f) => Ok(f),
                None => Err(FingerprintError::WrongLength),
            },
        }
    }
}

/// Identity pinning: a node is trusted only when the identity it presents is
/// exactly the one the registry declared for it.
pub fn verify_identity(expected: Fingerprint, presented: Fingerprint) -> (r: bool)
    ensures
        r <==> expected == presented,
{
    expected == presented
}

/// Checks the raw fingerprint bytes a node presented during connection setup
/// against its pinned identity; anything that is not exactly those 32 bytes
/// is a mismatch.
pub fn verify_presented_bytes(expected: Fingerprint, presented: &[u8]) -> (r: bool)
    ensures
        r <==> (presented@.len() == 32 && fingerprint_of(presented@) == expected),
{
    match Fingerprint::from_bytes(presented) {
        Some(f) => verify_identity(expected, f),
        None => false,
    }
}

} // verus!
