//! SHA-256 hashes.

use crate::codec::Encoded;
use vstd::prelude::*;

verus! {

/// The error that `hex::decode` reports.
#[verifier::external_type_specification]
#[verifier::external_body]
pub struct ExFromHexError(hex::FromHexError);

/// The lower-case hexadecimal text, as ASCII bytes, of the SHA-256 digest of `data`.
pub uninterp spec fn sha256_hex(data: Seq<u8>) -> Seq<u8>;

/// The value of one hexadecimal digit, given as an ASCII byte.
pub open spec fn hex_digit_value(c: u8) -> Option<u8> {
    if 0x30 <= c <= 0x39 {
        Some((c - 0x30) as u8)
    } else if 0x61 <= c <= 0x66 {
        Some((c - 0x61 + 10) as u8)
    } else if 0x41 <= c <= 0x46 {
        Some((c - 0x41 + 10) as u8)
    } else {
        None
    }
}

/// Whether `text` is an even number of hexadecimal digits.
pub open spec fn is_hex_text(text: Seq<u8>) -> bool {
    &&& text.len() % 2 == 0
    &&& forall|i: int| 0 <= i < text.len() ==> hex_digit_value(#[trigger] text[i]) is Some
}

/// The bytes that the hexadecimal text `text` stands for: two digits a byte, the high one first.
pub open spec fn hex_value(text: Seq<u8>) -> Seq<u8> {
    Seq::new(
        text.len() / 2,
        |i: int|
            (hex_digit_value(text[2 * i]).unwrap() * 16 + hex_digit_value(
                text[2 * i + 1],
            ).unwrap()) as u8,
    )
}

/// The SHA-256 digest of `data`: 32 bytes.
pub open spec fn spec_sha256(data: Seq<u8>) -> Seq<u8> {
    hex_value(sha256_hex(data))
}

/// `sha256::digest` on a byte slice: the digest of `data` as 64 lower-case hexadecimal
/// digits. The crate hashes with SHA-256 and prints the 32 bytes with `hex::encode`,
/// so the text has 64 characters, each one a hexadecimal digit.
#[verifier::external_body]
fn digest_hex(data: &[u8]) -> (text: Vec<u8>)
    ensures
        text@ == sha256_hex(data@),
        text@.len() == 64,
        is_hex_text(text@),
{
    sha256::digest(data).into_bytes()
}

/// `hex::decode`: succeeds exactly on an even number of hexadecimal digits, of either
/// case, and then returns one byte for each pair, the first digit being the high half.
#[verifier::external_body]
fn hex_decode(text: &[u8]) -> (r: Result<Vec<u8>, hex::FromHexError>)
    ensures
        r is Ok <==> is_hex_text(text@),
        r is Ok ==> r->Ok_0@ == hex_value(text@),
{
    hex::decode(text)
}

/// The SHA-256 digest of `data`.
pub fn sha256(data: &[u8]) -> (digest: [u8; 32])
    ensures
        digest@ == spec_sha256(data@),
{
    let text = digest_hex(data);
    let mut digest = [0u8; 32];
    if let Ok(bytes) = hex_decode(text.as_slice()) {
        for i in 0..32usize
            invariant
                bytes@.len() == 32,
                forall|j: int| 0 <= j < i ==> digest@[j] == bytes@[j],
        {
            digest[i] = bytes[i];
        }
        assert(digest@ =~= bytes@);
    }
    digest
}

/// A 32-byte hash.
#[derive(Clone, Copy, Debug, Eq, Hash)]
pub struct CryptoHash(pub [u8; 32]);

impl PartialEq for CryptoHash {
    fn eq(&self, other: &Self) -> (r: bool) {
        let mut i: usize = 0;
        while i < 32
            invariant
                i <= 32,
                forall|j: int| 0 <= j < i ==> self.0@[j] == other.0@[j],
            decreases 32 - i,
        {
            if self.0[i] != other.0[i] {
                assert(self.0@[i as int] != other.0@[i as int]);
                return false;
            }
            i += 1;
        }
        assert(self.0@ =~= other.0@);
        true
    }
}

impl vstd::std_specs::cmp::PartialEqSpecImpl for CryptoHash {
    open spec fn obeys_eq_spec() -> bool {
        true
    }

    open spec fn eq_spec(&self, other: &Self) -> bool {
        self.0@ == other.0@
    }
}

impl View for CryptoHash {
    type V = Seq<u8>;

    open spec fn view(&self) -> Seq<u8> {
        self.0@
    }
}

impl DeepView for CryptoHash {
    type V = Seq<u8>;

    open spec fn deep_view(&self) -> Seq<u8> {
        self.0@
    }
}

impl CryptoHash {
    /// The hash whose bytes are all zero.
    pub fn new() -> (h: Self)
        ensures
            h@ == Seq::new(32, |i: int| 0u8),
    {
        let h = CryptoHash([0u8; 32]);
        assert(h@ =~= Seq::new(32, |i: int| 0u8));
        h
    }

    /// The bytes of the hash.
    pub fn as_bytes(&self) -> (bytes: &[u8; 32])
        ensures
            bytes@ == self@,
    {
        &self.0
    }
}

impl CryptoHash {
    /// The hash of `bytes`.
    pub fn hash_bytes(bytes: &[u8]) -> (h: CryptoHash)
        ensures
            h@ == spec_sha256(bytes@),
    {
        CryptoHash(sha256(bytes))
    }

    /// The hash that `bytes` holds, if there are 32 of them.
    pub fn try_from(bytes: &[u8]) -> (r: Result<CryptoHash, String>)
        ensures
            r is Ok <==> bytes@.len() == 32,
            r is Ok ==> r->Ok_0@ == bytes@,
            r is Err ==> r->Err_0@ == "Wrong size."@,
    {
        if bytes.len() != 32 {
            return Err("Wrong size.".to_owned());
        }
        let mut inner = [0u8; 32];
        for i in 0..32usize
            invariant
                bytes@.len() == 32,
                forall|j: int| 0 <= j < i ==> inner@[j] == bytes@[j],
        {
            inner[i] = bytes[i];
        }
        assert(inner@ =~= bytes@);
        Ok(CryptoHash(inner))
    }

    /// The hash in base 58, as it is shown to people.
    pub fn to_string(&self) -> (text: String)
        ensures
            text@ == base58_text(self@),
    {
        base58_encode(&self.0)
    }
}

impl Default for CryptoHash {
    fn default() -> (h: Self)
        ensures
            h@ == Seq::new(32, |i: int| 0u8),
    {
        CryptoHash::new()
    }
}

/// The base-58 text of `bytes`, in the Bitcoin alphabet.
pub uninterp spec fn base58_text(bytes: Seq<u8>) -> Seq<char>;

/// `bs58::encode(..).into_string()`: the base-58 text of the 32 bytes, in the crate's
/// default alphabet.
#[verifier::external_body]
fn base58_encode(bytes: &[u8; 32]) -> (text: String)
    ensures
        text@ == base58_text(bytes@),
{
    bs58::encode(bytes).into_string()
}

/// The hash of two hashes joined: SHA-256 of the 64 bytes `a ‖ b`.
pub open spec fn spec_combine_hash(a: Seq<u8>, b: Seq<u8>) -> Seq<u8> {
    spec_sha256(a + b)
}

/// The hash of `hash1` followed by `hash2`.
pub fn combine_hash(hash1: &CryptoHash, hash2: &CryptoHash) -> (h: CryptoHash)
    ensures
        h@ == spec_combine_hash(hash1@, hash2@),
{
    let mut joined: Vec<u8> = Vec::new();
    joined.extend_from_slice(&hash1.0);
    joined.extend_from_slice(&hash2.0);
    assert(joined@ =~= hash1@ + hash2@);
    CryptoHash(sha256(joined.as_slice()))
}

impl Encoded for CryptoHash {
    open spec fn encodable(m: Seq<u8>) -> bool {
        m.len() == 32
    }

    open spec fn spec_encode(m: Seq<u8>) -> Seq<u8> {
        m
    }

    open spec fn spec_parse(bytes: Seq<u8>) -> Option<(Seq<u8>, int)> {
        if bytes.len() >= 32 {
            Some((bytes.take(32), 32))
        } else {
            None
        }
    }

    proof fn lemma_parse_encode(m: Seq<u8>, rest: Seq<u8>) {
        assert((m + rest).take(32) =~= m);
    }

    proof fn lemma_parse_within(bytes: Seq<u8>) {
    }

    fn is_encodable(&self) -> (b: bool) {
        true
    }

    fn encode_into(&self, out: &mut Vec<u8>) {
        out.extend_from_slice(&self.0);
        assert(out@ =~= old(out)@ + self@);
        assert(out@ =~= old(out)@ + Self::spec_encode(self.deep_view()));
    }

    fn parse(bytes: &[u8], pos: usize) -> (r: Option<(Self, usize)>) {
        if bytes.len() - pos < 32 {
            return None;
        }
        let mut inner = [0u8; 32];
        for i in 0..32usize
            invariant
                pos + 32 <= bytes.len(),
                forall|j: int| 0 <= j < i ==> inner@[j] == bytes@[pos + j],
        {
            inner[i] = bytes[pos + i];
        }
        assert(inner@ =~= bytes@.skip(pos as int).take(32));
        Some((CryptoHash(inner), pos + 32))
    }
}

impl CryptoHash {
    /// The hash in the 32 bytes of `bytes` from `pos` on.
    pub fn read(bytes: &[u8], pos: usize) -> (h: CryptoHash)
        requires
            pos + 32 <= bytes@.len(),
        ensures
            h@ == bytes@.subrange(pos as int, pos + 32),
    {
        let mut inner = [0u8; 32];
        for i in 0..32usize
            invariant
                pos + 32 <= bytes.len(),
                forall|j: int| 0 <= j < i ==> inner@[j] == bytes@[pos + j],
        {
            inner[i] = bytes[pos + i];
        }
        assert(inner@ =~= bytes@.subrange(pos as int, pos + 32));
        CryptoHash(inner)
    }

    /// The hash of the canonical encoding of `value`.
    pub fn hash_borsh<T: Encoded>(value: &T) -> (h: CryptoHash)
        requires
            T::encodable(value.deep_view()),
        ensures
            h@ == spec_sha256(T::spec_encode(value.deep_view())),
    {
        let bytes = crate::codec::encode(value);
        CryptoHash(sha256(bytes.as_slice()))
    }
}

} // verus!
