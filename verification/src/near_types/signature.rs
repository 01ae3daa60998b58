//! Public keys and signatures of block producers.

use crate::codec::{DecodeError, Encoded};
use ed25519_dalek::Verifier;
use vstd::prelude::*;
use vstd::slice::{slice_subrange, slice_to_vec};

verus! {

/// An Ed25519 public key: 32 bytes.
#[derive(Clone, Copy, Debug, PartialEq, Eq)]
pub struct ED25519PublicKey(pub [u8; 32]);

/// A secp256k1 public key. No key of this kind is accepted yet.
#[derive(Clone, Copy, Debug)]
pub struct Secp256K1PublicKey([u8; 64]);

/// A public key, tagged with its kind.
#[derive(Debug, PartialEq, Eq)]
pub enum PublicKey {
    /// 256 bit elliptic curve based public-key.
    ED25519(ED25519PublicKey),
}

/// The kinds of key.
#[derive(Clone, Copy, Debug, PartialEq, Eq, Structural)]
pub enum KeyType {
    ED25519,
}

/// A signature, tagged with its kind.
#[derive(Debug, PartialEq, Eq)]
pub enum Signature {
    ED25519(Vec<u8>),
}

impl View for PublicKey {
    type V = Seq<u8>;

    open spec fn view(&self) -> Seq<u8> {
        match self {
            PublicKey::ED25519(key) => key.0@,
        }
    }
}

impl DeepView for PublicKey {
    type V = Seq<u8>;

    open spec fn deep_view(&self) -> Seq<u8> {
        self@
    }
}

impl View for Signature {
    type V = Seq<u8>;

    open spec fn view(&self) -> Seq<u8> {
        match self {
            Signature::ED25519(bytes) => bytes@,
        }
    }
}

impl DeepView for Signature {
    type V = Seq<u8>;

    open spec fn deep_view(&self) -> Seq<u8> {
        self@
    }
}

impl Clone for PublicKey {
    fn clone(&self) -> (key: Self)
        ensures
            key@ == self@,
    {
        match self {
            PublicKey::ED25519(key) => PublicKey::ED25519(ED25519PublicKey(key.0)),
        }
    }
}

impl Clone for Signature {
    fn clone(&self) -> (signature: Self)
        ensures
            signature@ == self@,
    {
        match self {
            Signature::ED25519(bytes) => Signature::ED25519(slice_to_vec(bytes.as_slice())),
        }
    }
}

impl KeyType {
    /// The kind of key that the tag `value` stands for: 0 is Ed25519, and no other tag is
    /// known.
    pub fn try_from(value: u8) -> (r: Result<KeyType, DecodeError>)
        ensures
            r == (if value == 0 {
                Ok::<KeyType, DecodeError>(KeyType::ED25519)
            } else {
                Err::<KeyType, DecodeError>(DecodeError)
            }),
    {
        if value == 0 {
            Ok(KeyType::ED25519)
        } else {
            Err(DecodeError)
        }
    }
}

/// Whether the 32 bytes `key` are the compressed form of a point of the curve, as
/// `ed25519_dalek::PublicKey::from_bytes` decides it.
pub uninterp spec fn ed25519_key_decodes(key: Seq<u8>) -> bool;

/// Whether `signature` has the form of a signature: 64 bytes, the three highest bits of
/// the last one unset.
pub open spec fn ed25519_signature_decodes(signature: Seq<u8>) -> bool {
    signature.len() == 64 && signature[63] & 0xe0 == 0
}

/// Whether `signature` is a signature of `message` under `key`, as the `verify` of
/// `ed25519_dalek::PublicKey` decides it, for a key and a signature that decode.
pub uninterp spec fn ed25519_verifies(key: Seq<u8>, message: Seq<u8>, signature: Seq<u8>) -> bool;

/// Whether `signature` is a valid signature of `message` under `key`. A key or a
/// signature that does not decode makes it false.
pub open spec fn spec_signature_valid(signature: Seq<u8>, message: Seq<u8>, key: Seq<u8>) -> bool {
    &&& ed25519_key_decodes(key)
    &&& ed25519_signature_decodes(signature)
    &&& ed25519_verifies(key, message, signature)
}

/// `ed25519_dalek::PublicKey::from_bytes`: whether it accepts the 32 bytes, which it does
/// where they decompress to a point of the curve.
#[verifier::external_body]
fn key_decodes(key: &[u8; 32]) -> (ok: bool)
    ensures
        ok == ed25519_key_decodes(key@),
{
    ed25519_dalek::PublicKey::from_bytes(key).is_ok()
}

/// `ed25519_dalek::Signature::from_bytes`: whether it accepts the bytes. It wants 64 of
/// them, and refuses a last byte with one of its three highest bits set.
#[verifier::external_body]
fn signature_decodes(signature: &[u8]) -> (ok: bool)
    ensures
        ok == ed25519_signature_decodes(signature@),
{
    ed25519_dalek::Signature::from_bytes(signature).is_ok()
}

/// `verify` of `ed25519_dalek::PublicKey`, on a key and a signature that decode: whether
/// the signature is one of `message` under the key.
#[verifier::external_body]
fn verify_decoded(key: &[u8; 32], message: &[u8], signature: &[u8]) -> (ok: bool)
    requires
        ed25519_key_decodes(key@),
        ed25519_signature_decodes(signature@),
    ensures
        ok == ed25519_verifies(key@, message@, signature@),
{
    let key = ed25519_dalek::PublicKey::from_bytes(key).unwrap();
    let signature = ed25519_dalek::Signature::from_bytes(signature).unwrap();
    key.verify(message, &signature).is_ok()
}

impl Signature {
    /// Whether this signature signs `data` under `public_key`. A key that is no point of
    /// the curve, or a signature of the wrong form, gives `false`.
    pub fn verify(&self, data: &[u8], public_key: &PublicKey) -> (ok: bool)
        ensures
            ok == spec_signature_valid(self@, data@, public_key@),
    {
        match (self, public_key) {
            (Signature::ED25519(signature), PublicKey::ED25519(key)) => {
                if !key_decodes(&key.0) {
                    return false;
                }
                if !signature_decodes(signature.as_slice()) {
                    return false;
                }
                verify_decoded(&key.0, data, signature.as_slice())
            },
        }
    }
}

impl Encoded for PublicKey {
    open spec fn encodable(m: Seq<u8>) -> bool {
        m.len() == 32
    }

    open spec fn spec_encode(m: Seq<u8>) -> Seq<u8> {
        seq![0u8] + m
    }

    open spec fn spec_parse(bytes: Seq<u8>) -> Option<(Seq<u8>, int)> {
        if bytes.len() >= 33 && bytes[0] == 0 {
            Some((bytes.subrange(1, 33), 33))
        } else {
            None
        }
    }

    proof fn lemma_parse_encode(m: Seq<u8>, rest: Seq<u8>) {
        assert((seq![0u8] + m + rest).subrange(1, 33) =~= m);
    }

    proof fn lemma_parse_within(bytes: Seq<u8>) {
    }

    fn is_encodable(&self) -> (b: bool) {
        true
    }

    fn encode_into(&self, out: &mut Vec<u8>) {
        match self {
            PublicKey::ED25519(key) => {
                out.push(0u8);
                out.extend_from_slice(&key.0);
                assert(out@ =~= old(out)@ + (seq![0u8] + self@));
            },
        }
    }

    fn parse(bytes: &[u8], pos: usize) -> (r: Option<(Self, usize)>) {
        if bytes.len() - pos < 33 {
            return None;
        }
        if KeyType::try_from(bytes[pos]).is_err() {
            return None;
        }
        let mut key = [0u8; 32];
        for i in 0..32usize
            invariant
                pos + 33 <= bytes.len(),
                forall|j: int| 0 <= j < i ==> key@[j] == bytes@[pos + 1 + j],
        {
            key[i] = bytes[pos + 1 + i];
        }
        assert(key@ =~= bytes@.skip(pos as int).subrange(1, 33));
        Some((PublicKey::ED25519(ED25519PublicKey(key)), pos + 33))
    }
}

impl Encoded for Signature {
    open spec fn encodable(m: Seq<u8>) -> bool {
        m.len() == 64
    }

    open spec fn spec_encode(m: Seq<u8>) -> Seq<u8> {
        seq![0u8] + m
    }

    open spec fn spec_parse(bytes: Seq<u8>) -> Option<(Seq<u8>, int)> {
        if bytes.len() >= 65 && bytes[0] == 0 {
            Some((bytes.subrange(1, 65), 65))
        } else {
            None
        }
    }

    proof fn lemma_parse_encode(m: Seq<u8>, rest: Seq<u8>) {
        assert((seq![0u8] + m + rest).subrange(1, 65) =~= m);
    }

    proof fn lemma_parse_within(bytes: Seq<u8>) {
    }

    fn is_encodable(&self) -> (b: bool) {
        match self {
            Signature::ED25519(signature) => signature.len() == 64,
        }
    }

    fn encode_into(&self, out: &mut Vec<u8>) {
        match self {
            Signature::ED25519(signature) => {
                out.push(0u8);
                out.extend_from_slice(signature.as_slice());
                assert(out@ =~= old(out)@ + (seq![0u8] + self@));
            },
        }
    }

    fn parse(bytes: &[u8], pos: usize) -> (r: Option<(Self, usize)>) {
        if bytes.len() - pos < 65 {
            return None;
        }
        if KeyType::try_from(bytes[pos]).is_err() {
            return None;
        }
        let signature = slice_to_vec(slice_subrange(bytes, pos + 1, pos + 65));
        assert(signature@ =~= bytes@.skip(pos as int).subrange(1, 65));
        Some((Signature::ED25519(signature), pos + 65))
    }
}

} // verus!
