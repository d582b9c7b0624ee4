//! Keys, signatures and the signature chain.

pub mod chain;
pub mod ed25519;
pub mod encoding;
pub mod p256;
pub mod secret;

use vstd::prelude::*;
use vstd::slice::slice_to_vec;
use vstd::string::StringExecFns;
use vstd::std_specs::cmp::PartialEqSpecImpl;
use crate::crypto::encoding::hex_text;
use crate::crypto::ed25519::{ed25519_public_key_decodes, ed25519_public_of, ed25519_signature_of};
use crate::crypto::p256::{p256_compressed_point, p256_public_of, p256_signature_of};
use crate::error;
use crate::error::Format;
use crate::format::schema;
use crate::format::schema::Algorithm;

verus! {

/// A signature: bytes whose meaning depends on the algorithm of the key that
/// made them.
#[derive(Clone, Debug, PartialEq, Eq)]
pub struct Signature {
    bytes: Vec<u8>,
}

impl View for Signature {
    type V = Seq<u8>;

    closed spec fn view(&self) -> Seq<u8> {
        self.bytes@
    }
}

impl Signature {
    /// Copies the bytes of a signature.
    pub fn from_bytes(data: &[u8]) -> (res: Signature)
        ensures
            res@ == data@,
    {
        Signature { bytes: slice_to_vec(data) }
    }

    /// Takes the bytes of a signature.
    pub fn from_vec(data: Vec<u8>) -> (res: Signature)
        ensures
            res@ == data@,
    {
        Signature { bytes: data }
    }

    /// The bytes of the signature.
    pub fn to_bytes(&self) -> (res: &[u8])
        ensures
            res@ == self@,
    {
        self.bytes.as_slice()
    }
}

/// What the check of one signature comes to.
#[derive(Clone, Copy, Debug, PartialEq, Eq, Structural)]
pub enum Verdict {
    /// The signature is one of the message under the key.
    Valid,
    /// The bytes do not have the shape of a signature.
    Malformed,
    /// The bytes have the shape of a signature, but it is not one of the
    /// message under the key.
    Rejected,
}

/// Whether two byte strings hold the same bytes.
pub fn bytes_equal(a: &[u8], b: &[u8]) -> (res: bool)
    ensures
        res == (a@ == b@),
{
    if a.len() != b.len() {
        return false;
    }
    let mut i: usize = 0;
    while i < a.len()
        invariant
            a@.len() == b@.len(),
            i <= a@.len(),
            forall|j: int| 0 <= j < i ==> a@[j] == b@[j],
        decreases a@.len() - i,
    {
        if a[i] != b[i] {
            return false;
        }
        i += 1;
    }
    assert(a@ =~= b@);
    true
}

/// How many bytes a signature of the algorithm has.
pub open spec fn signature_length(algorithm: Algorithm) -> nat {
    match algorithm {
        Algorithm::Ed25519 => 64,
        Algorithm::P256 => 64,
    }
}

/// How many bytes the canonical form of a public key of the algorithm has:
/// 32 for a compressed Edwards point, 33 for a compressed point of P-256.
pub open spec fn public_key_length(algorithm: Algorithm) -> nat {
    match algorithm {
        Algorithm::Ed25519 => 32,
        Algorithm::P256 => 33,
    }
}

/// What a public key is: its algorithm and its canonical bytes.
pub struct KeyView {
    pub algorithm: Algorithm,
    pub bytes: Seq<u8>,
}

/// A public key of any of the algorithms.
#[derive(Debug, Eq, Hash)]
pub enum PublicKey {
    Ed25519(ed25519::PublicKey),
    P256(p256::PublicKey),
}

impl View for PublicKey {
    type V = KeyView;

    open spec fn view(&self) -> KeyView {
        match self {
            PublicKey::Ed25519(key) => KeyView { algorithm: Algorithm::Ed25519, bytes: key@ },
            PublicKey::P256(key) => KeyView { algorithm: Algorithm::P256, bytes: key@ },
        }
    }
}

impl Clone for PublicKey {
    fn clone(&self) -> (res: Self)
        ensures
            res@ == self@,
    {
        match self {
            PublicKey::Ed25519(key) => PublicKey::Ed25519(*key),
            PublicKey::P256(key) => PublicKey::P256(key.clone()),
        }
    }
}

impl PartialEq for PublicKey {
    fn eq(&self, other: &Self) -> (res: bool)
    {
        match (self, other) {
            (PublicKey::Ed25519(a), PublicKey::Ed25519(b)) => a == b,
            (PublicKey::P256(a), PublicKey::P256(b)) => a == b,
            _ => false,
        }
    }
}

impl PartialEqSpecImpl for PublicKey {
    open spec fn obeys_eq_spec() -> bool {
        true
    }

    open spec fn eq_spec(&self, other: &Self) -> bool {
        self@ == other@
    }
}

impl PublicKey {
    /// Whether the key is one that its backend accepts. Every public key
    /// that this crate hands out is valid.
    pub open spec fn valid(&self) -> bool {
        match self {
            PublicKey::Ed25519(key) => key.valid(),
            PublicKey::P256(key) => key.valid(),
        }
    }

    /// Whether a view is that of a valid key.
    pub open spec fn valid_view(view: KeyView) -> bool {
        match view.algorithm {
            Algorithm::Ed25519 => ed25519_public_key_decodes(view.bytes),
            Algorithm::P256 => p256_compressed_point(view.bytes) == Some(view.bytes),
        }
    }

    /// The key that a wire message holds, if it holds one: the algorithm's
    /// number must be known, and the bytes must be a key of that algorithm.
    pub open spec fn decoded(algorithm: i32, key: Seq<u8>) -> Option<KeyView> {
        match Algorithm::spec_from_tag(algorithm) {
            Some(Algorithm::Ed25519) => if ed25519_public_key_decodes(key) {
                Some(KeyView { algorithm: Algorithm::Ed25519, bytes: key })
            } else {
                None
            },
            Some(Algorithm::P256) => match p256_compressed_point(key) {
                Some(bytes) => Some(KeyView { algorithm: Algorithm::P256, bytes }),
                None => None,
            },
            None => None,
        }
    }

    /// Whether `e` is the error of a wire message that holds no key: a
    /// message that names no known algorithm cannot be read at all, and one
    /// that names an algorithm holds bytes that are no key of it.
    pub open spec fn is_key_error(algorithm: i32, e: Format) -> bool {
        if Algorithm::spec_from_tag(algorithm) is None {
            e matches Format::DeserializationError(text) && text@
                == ed25519::PublicKey::unexpected_algorithm_text(algorithm)
        } else {
            e is InvalidKey
        }
    }

    /// What checking `signature` for `data` under `key` comes to.
    pub open spec fn signature_verdict(key: KeyView, data: Seq<u8>, signature: Seq<u8>) -> Verdict {
        match key.algorithm {
            Algorithm::Ed25519 => ed25519::PublicKey::signature_verdict(key.bytes, data, signature),
            Algorithm::P256 => p256::PublicKey::signature_verdict(key.bytes, data, signature),
        }
    }

    /// The name of an algorithm in the readable form of a key.
    pub open spec fn algorithm_name(algorithm: Algorithm) -> Seq<char> {
        match algorithm {
            Algorithm::Ed25519 => "ed25519/"@,
            Algorithm::P256 => "p256/"@,
        }
    }

    /// The canonical bytes of the key.
    pub fn to_bytes(&self) -> (res: Vec<u8>)
        ensures
            res@ == self@.bytes,
            res@.len() == public_key_length(self@.algorithm),
    {
        match self {
            PublicKey::Ed25519(key) => {
                let bytes = key.to_bytes();
                slice_to_vec(bytes.as_slice())
            },
            PublicKey::P256(key) => key.to_bytes(),
        }
    }

    /// Reads a key from its wire message.
    pub fn from_proto(key: &schema::PublicKey) -> (res: Result<Self, Format>)
        ensures
            res is Ok <==> Self::decoded(key.algorithm, key.key@) is Some,
            res matches Ok(k) ==> Some(k@) == Self::decoded(key.algorithm, key.key@) && k.valid(),
            res matches Err(e) ==> Self::is_key_error(key.algorithm, e),
    {
        match Algorithm::from_tag(key.algorithm) {
            Some(Algorithm::Ed25519) => match ed25519::PublicKey::from_proto(key) {
                Ok(k) => Ok(PublicKey::Ed25519(k)),
                Err(e) => Err(e),
            },
            Some(Algorithm::P256) => match p256::PublicKey::from_proto(key) {
                Ok(k) => Ok(PublicKey::P256(k)),
                Err(e) => Err(e),
            },
            None => {
                let number = error::i32_text(key.algorithm);
                let text = String::from_str(
                    "deserialization error: unexpected key algorithm ",
                ).concat(number.as_str());
                Err(Format::DeserializationError(text))
            },
        }
    }

    /// The wire message of the key, which reads back as this key.
    pub fn to_proto(&self) -> (res: schema::PublicKey)
        ensures
            res.algorithm == self@.algorithm.spec_tag(),
            res.key@ == self@.bytes,
            res.key@.len() == public_key_length(self@.algorithm),
            Self::decoded(res.algorithm, res.key@) == Some(self@),
            Self::valid_view(self@),
            self.valid(),
    {
        match self {
            PublicKey::Ed25519(key) => key.to_proto(),
            PublicKey::P256(key) => key.to_proto(),
        }
    }

    /// Checks that `signature` is a signature of `data` by the private key
    /// that belongs to this key.
    pub fn verify_signature(&self, data: &[u8], signature: &Signature) -> (res: Result<(), Format>)
        ensures
            verdict_matches(Self::signature_verdict(self@, data@, signature@), res),
    {
        match self {
            PublicKey::Ed25519(key) => key.verify_signature(data, signature),
            PublicKey::P256(key) => key.verify_signature(data, signature),
        }
    }

    /// The algorithm of the key.
    pub fn algorithm(&self) -> (res: Algorithm)
        ensures
            res == self@.algorithm,
    {
        match self {
            PublicKey::Ed25519(_) => Algorithm::Ed25519,
            PublicKey::P256(_) => Algorithm::P256,
        }
    }

    /// The key in readable form: the algorithm's name, a slash, the bytes in
    /// hexadecimal.
    pub fn print(&self) -> (res: String)
        ensures
            res@ == Self::algorithm_name(self@.algorithm) + hex_text(self@.bytes),
    {
        match self {
            PublicKey::Ed25519(key) => key.print(),
            PublicKey::P256(key) => key.print(),
        }
    }

    /// A key read from a wire message has the algorithm that the message
    /// names: a message that names another algorithm than a key's does not
    /// read as that key, whatever its bytes.
    pub proof fn lemma_algorithm_is_checked(key: KeyView, algorithm: i32, bytes: Seq<u8>)
        requires
            algorithm != key.algorithm.spec_tag(),
        ensures
            Self::decoded(algorithm, bytes) != Some(key),
    {
    }

    /// A valid key reads back from its own wire message.
    pub proof fn lemma_proto_round_trip(key: KeyView)
        requires
            Self::valid_view(key),
        ensures
            Self::decoded(key.algorithm.spec_tag(), key.bytes) == Some(key),
    {
    }

    /// A valid key has a valid view.
    pub proof fn lemma_valid_view(self)
        requires
            self.valid(),
        ensures
            Self::valid_view(self@),
    {
        match self {
            PublicKey::Ed25519(key) => ed25519::PublicKey::lemma_bytes_round_trip(key),
            PublicKey::P256(key) => p256::PublicKey::lemma_bytes_round_trip(key),
        }
    }
}

/// Whether `res` is what a check with this verdict returns: success for a
/// valid signature, and for the others the error of their kind.
pub open spec fn verdict_matches(verdict: Verdict, res: Result<(), Format>) -> bool {
    match verdict {
        Verdict::Valid => res is Ok,
        Verdict::Malformed => res matches Err(Format::SignatureDeserializationError(_)),
        Verdict::Rejected => res matches Err(
            Format::Signature(error::Signature::InvalidSignature(_)),
        ),
    }
}

/// A private key of any of the algorithms.
#[derive(Debug, Clone)]
pub enum PrivateKey {
    Ed25519(ed25519::PrivateKey),
    P256(p256::PrivateKey),
}

impl PrivateKey {
    /// The algorithm of the key.
    pub open spec fn spec_algorithm(&self) -> Algorithm {
        match self {
            PrivateKey::Ed25519(_) => Algorithm::Ed25519,
            PrivateKey::P256(_) => Algorithm::P256,
        }
    }

    /// The secret bytes of the key.
    pub open spec fn secret_view(&self) -> Seq<u8> {
        match self {
            PrivateKey::Ed25519(key) => key@,
            PrivateKey::P256(key) => key@,
        }
    }

    /// The public key that belongs to the key.
    pub open spec fn public_view(&self) -> KeyView {
        match self {
            PrivateKey::Ed25519(key) => KeyView {
                algorithm: Algorithm::Ed25519,
                bytes: ed25519_public_of(key@),
            },
            PrivateKey::P256(key) => KeyView {
                algorithm: Algorithm::P256,
                bytes: p256_public_of(key@).unwrap(),
            },
        }
    }

    /// The signature that the key makes for a message, if the backend makes
    /// one.
    pub open spec fn signature_of(&self, message: Seq<u8>) -> Option<Seq<u8>> {
        match self {
            PrivateKey::Ed25519(key) => Some(
                ed25519_signature_of(key@, ed25519_public_of(key@), message),
            ),
            PrivateKey::P256(key) => p256_signature_of(key@, message),
        }
    }

    /// The algorithm of the key.
    #[verifier::when_used_as_spec(spec_algorithm)]
    pub fn algorithm(&self) -> (res: Algorithm)
        ensures
            res == self.spec_algorithm(),
    {
        match self {
            PrivateKey::Ed25519(_) => Algorithm::Ed25519,
            PrivateKey::P256(_) => Algorithm::P256,
        }
    }

    /// returns the matching public key
    pub fn public(&self) -> (res: PublicKey)
        ensures
            res@ == self.public_view(),
            res.valid(),
    {
        match self {
            PrivateKey::Ed25519(key) => PublicKey::Ed25519(key.public()),
            PrivateKey::P256(key) => PublicKey::P256(key.public()),
        }
    }

    /// Signs `data`. The signature has the length that the algorithm fixes.
    pub fn sign(&self, data: &[u8]) -> (res: Result<Signature, Format>)
        ensures
            match self.signature_of(data@) {
                Some(s) => res matches Ok(signature) && signature@ == s && signature@.len()
                    == signature_length(self.spec_algorithm()),
                None => res matches Err(
                    Format::Signature(error::Signature::InvalidSignatureGeneration(_)),
                ),
            },
    {
        match self {
            PrivateKey::Ed25519(key) => ed25519::KeyPair::from(key).sign(data),
            PrivateKey::P256(key) => p256::KeyPair::from(key).sign(data),
        }
    }
}

/// A key pair of any of the algorithms.
#[derive(Debug)]
pub enum KeyPair {
    Ed25519(ed25519::KeyPair),
    P256(p256::KeyPair),
}

impl KeyPair {
    /// Whether the keys of the pair belong together. Every key pair that
    /// this crate hands out is valid.
    pub open spec fn valid(&self) -> bool {
        match self {
            KeyPair::Ed25519(pair) => pair.valid(),
            KeyPair::P256(pair) => pair.valid(),
        }
    }

    /// The private key of the pair.
    pub open spec fn private_view(&self) -> Seq<u8> {
        match self {
            KeyPair::Ed25519(pair) => pair.private_view(),
            KeyPair::P256(pair) => pair.private_view(),
        }
    }

    /// The public key of the pair.
    pub open spec fn public_view(&self) -> KeyView {
        match self {
            KeyPair::Ed25519(pair) => KeyView {
                algorithm: Algorithm::Ed25519,
                bytes: pair.public_view(),
            },
            KeyPair::P256(pair) => KeyView { algorithm: Algorithm::P256, bytes: pair.public_view() },
        }
    }

    /// The signature that the pair makes for a message, if the backend makes
    /// one.
    pub open spec fn signature_of(&self, message: Seq<u8>) -> Option<Seq<u8>> {
        match self {
            KeyPair::Ed25519(pair) => Some(
                ed25519_signature_of(pair.private_view(), pair.public_view(), message),
            ),
            KeyPair::P256(pair) => p256_signature_of(pair.private_view(), message),
        }
    }

    /// Generates a key pair of the given algorithm from the operating
    /// system's random number generator.
    pub fn new(algorithm: Algorithm) -> (res: Self)
        ensures
            res.public_view().algorithm == algorithm,
            res.valid(),
    {
        match algorithm {
            Algorithm::Ed25519 => KeyPair::Ed25519(ed25519::KeyPair::new()),
            Algorithm::P256 => KeyPair::P256(p256::KeyPair::new()),
        }
    }

    /// The key pair of a private key.
    pub fn from(key: &PrivateKey) -> (res: Self)
        ensures
            res.private_view() == key.secret_view(),
            res.public_view() == key.public_view(),
            res.valid(),
    {
        match key {
            PrivateKey::Ed25519(key) => KeyPair::Ed25519(ed25519::KeyPair::from(key)),
            PrivateKey::P256(key) => KeyPair::P256(p256::KeyPair::from(key)),
        }
    }

    /// Signs `data` with the private key. The signature has the length that
    /// the algorithm fixes.
    pub fn sign(&self, data: &[u8]) -> (res: Result<Signature, Format>)
        ensures
            match self.signature_of(data@) {
                Some(s) => res matches Ok(signature) && signature@ == s && signature@.len()
                    == signature_length(self.public_view().algorithm),
                None => res matches Err(
                    Format::Signature(error::Signature::InvalidSignatureGeneration(_)),
                ),
            },
    {
        match self {
            KeyPair::Ed25519(pair) => pair.sign(data),
            KeyPair::P256(pair) => pair.sign(data),
        }
    }

    /// The private half.
    pub fn private(&self) -> (res: PrivateKey)
        ensures
            res.secret_view() == self.private_view(),
            res.spec_algorithm() == self.public_view().algorithm,
    {
        match self {
            KeyPair::Ed25519(pair) => PrivateKey::Ed25519(pair.private()),
            KeyPair::P256(pair) => PrivateKey::P256(pair.private()),
        }
    }

    /// The public half.
    pub fn public(&self) -> (res: PublicKey)
        ensures
            res@ == self.public_view(),
            res.valid(),
    {
        match self {
            KeyPair::Ed25519(pair) => PublicKey::Ed25519(pair.public()),
            KeyPair::P256(pair) => PublicKey::P256(pair.public()),
        }
    }

    /// The algorithm of the keys.
    pub fn algorithm(&self) -> (res: Algorithm)
        ensures
            res == self.public_view().algorithm,
    {
        match self {
            KeyPair::Ed25519(_) => Algorithm::Ed25519,
            KeyPair::P256(_) => Algorithm::P256,
        }
    }
}

} // verus!
