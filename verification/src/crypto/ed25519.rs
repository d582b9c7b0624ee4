//! Ed25519 keys, backed by `ed25519_dalek`.
//!
//! A key is held as its canonical bytes; the backend is called on those bytes.

use vstd::prelude::*;
use vstd::slice::slice_to_vec;
use vstd::string::StringExecFns;
use vstd::std_specs::cmp::PartialEqSpecImpl;
use crate::crypto::{bytes_equal, Signature, Verdict};
use crate::crypto::secret::SecretBytes;
use crate::crypto::encoding::{
    hex_bytes, hex_decode, hex_encode, hex_error_text, hex_text, is_hex_text,
};
use crate::error;
use crate::error::Format;
use crate::format::schema;
use crate::format::schema::Algorithm;

verus! {

/// The backend's error type, carried from a backend call to the place where
/// it is turned into one of this crate's errors.
#[verifier::external_type_specification]
#[verifier::external_body]
pub struct ExSignatureError(ed25519_dalek::SignatureError);

/// The operating system's random number generator.
#[verifier::external_type_specification]
#[verifier::external_body]
pub struct ExOsRng(rand::rngs::OsRng);

/// Whether `ed25519_dalek::PublicKey::from_bytes` accepts these bytes.
pub uninterp spec fn ed25519_public_key_decodes(bytes: Seq<u8>) -> bool;

/// The public key bytes that the backend derives from the bytes of a secret key.
pub uninterp spec fn ed25519_public_of(secret: Seq<u8>) -> Seq<u8>;

/// The signature bytes that the backend makes for a message with a secret key
/// and its public key.
pub uninterp spec fn ed25519_signature_of(
    secret: Seq<u8>,
    public: Seq<u8>,
    message: Seq<u8>,
) -> Seq<u8>;

/// Whether the backend's strict verification accepts a signature for a
/// message under a public key.
pub uninterp spec fn ed25519_verifies_strict(
    public: Seq<u8>,
    message: Seq<u8>,
    signature: Seq<u8>,
) -> bool;

/// Whether bytes have the shape of a signature: 64 bytes, the three highest
/// bits of the last one clear.
pub open spec fn ed25519_signature_shaped(bytes: Seq<u8>) -> bool {
    bytes.len() == 64 && bytes[63] & 0xe0 == 0
}

/// Calls `ed25519_dalek::PublicKey::from_bytes` and hands back the key's
/// bytes. A key has 32 bytes, and they are the bytes it was read from.
#[verifier::external_body]
fn backend_public_from_bytes(bytes: &[u8]) -> (res: Result<[u8; 32], ed25519_dalek::SignatureError>)
    ensures
        res is Ok <==> ed25519_public_key_decodes(bytes@),
        res is Ok ==> bytes@.len() == 32,
        res matches Ok(b) ==> b@ == bytes@,
{
    ed25519_dalek::PublicKey::from_bytes(bytes).map(|k| k.to_bytes())
}

/// Calls `ed25519_dalek::SecretKey::from_bytes`, which accepts any 32 bytes
/// and nothing else, and hands back the key's bytes.
#[verifier::external_body]
fn backend_secret_from_bytes(bytes: &[u8]) -> (res: Result<[u8; 32], ed25519_dalek::SignatureError>)
    ensures
        res is Ok <==> bytes@.len() == 32,
        res matches Ok(b) ==> b@ == bytes@,
{
    ed25519_dalek::SecretKey::from_bytes(bytes).map(|k| k.to_bytes())
}

/// Derives the public key of a secret key with the backend's conversion from
/// `SecretKey` to `PublicKey`. What comes out is a public key, so it decodes.
#[verifier::external_body]
fn backend_public_of(secret: &[u8; 32]) -> (res: [u8; 32])
    ensures
        res@ == ed25519_public_of(secret@),
        ed25519_public_key_decodes(res@),
{
    let secret = ed25519_dalek::SecretKey::from_bytes(secret).unwrap();
    ed25519_dalek::PublicKey::from(&secret).to_bytes()
}

/// Calls `ed25519_dalek::SecretKey::generate`, which fills a secret key
/// from the generator, and hands back the key's bytes.
#[verifier::external_body]
fn backend_generate<T: rand_core::RngCore + rand_core::CryptoRng>(rng: &mut T) -> (res: [u8; 32])
{
    ed25519_dalek::SecretKey::generate(rng).to_bytes()
}

/// Hands out the operating system's random number generator.
#[verifier::external_body]
fn backend_os_rng() -> (res: rand::rngs::OsRng)
{
    rand::rngs::OsRng
}

/// Calls the backend's `try_sign` on the key pair made of these bytes. For
/// this backend signing does not fail, and what it makes has passed
/// `ed25519_dalek::Signature::from_bytes`, so it has the shape of a
/// signature.
#[verifier::external_body]
fn backend_sign(secret: &[u8; 32], public: &[u8; 32], message: &[u8]) -> (res: Result<[u8; 64], ed25519_dalek::SignatureError>)
    requires
        ed25519_public_key_decodes(public@),
    ensures
        res is Ok,
        res matches Ok(s) ==> s@ == ed25519_signature_of(secret@, public@, message@)
            && ed25519_signature_shaped(s@),
{
    let kp = ed25519_dalek::Keypair {
        secret: ed25519_dalek::SecretKey::from_bytes(secret).unwrap(),
        public: ed25519_dalek::PublicKey::from_bytes(public).unwrap(),
    };
    ed25519_dalek::Signer::try_sign(&kp, message).map(|s| s.to_bytes())
}

/// Calls `ed25519_dalek::Signature::from_bytes`, which accepts 64 bytes whose
/// last byte has its three highest bits clear, and hands the bytes back.
#[verifier::external_body]
fn backend_signature_from_bytes(bytes: &[u8]) -> (res: Result<[u8; 64], ed25519_dalek::SignatureError>)
    ensures
        res is Ok <==> ed25519_signature_shaped(bytes@),
        res matches Ok(s) ==> s@ == bytes@,
{
    ed25519_dalek::Signature::from_bytes(bytes).map(|s| s.to_bytes())
}

/// Calls `ed25519_dalek::PublicKey::verify_strict` on the key and the
/// signature made of these bytes.
#[verifier::external_body]
fn backend_verify_strict(public: &[u8; 32], message: &[u8], signature: &[u8; 64]) -> (res: Result<(), ed25519_dalek::SignatureError>)
    requires
        ed25519_public_key_decodes(public@),
        ed25519_signature_shaped(signature@),
    ensures
        res is Ok <==> ed25519_verifies_strict(public@, message@, signature@),
{
    let key = ed25519_dalek::PublicKey::from_bytes(public).unwrap();
    let signature = ed25519_dalek::Signature::from_bytes(signature).unwrap();
    key.verify_strict(message, &signature)
}

/// Renders a backend error with its `Display` impl.
#[verifier::external_body]
fn backend_error_text(e: &ed25519_dalek::SignatureError) -> (res: String)
{
    e.to_string()
}

/// Renders a backend error with its `Debug` impl.
#[verifier::external_body]
fn backend_error_debug(e: &ed25519_dalek::SignatureError) -> (res: String)
{
    format!("{:?}", e)
}

/// A pair of keys: the private key that signs, and the public key that
/// checks what was signed.
#[derive(Debug)]
pub struct KeyPair {
    private: PrivateKey,
    public: PublicKey,
}

impl KeyPair {
    #[verifier::type_invariant]
    spec fn well_formed(self) -> bool {
        self.valid()
    }

    /// Whether the public key is a key, and the one that belongs to the
    /// private key. Every key pair that this crate hands out is valid.
    pub closed spec fn valid(&self) -> bool {
        &&& self.public.valid()
        &&& self.public@ == ed25519_public_of(self.private@)
    }

    /// The bytes of the private key.
    pub closed spec fn private_view(&self) -> Seq<u8> {
        self.private@
    }

    /// The bytes of the public key.
    pub closed spec fn public_view(&self) -> Seq<u8> {
        self.public@
    }

    /// Generates a key pair from the operating system's random number
    /// generator.
    pub fn new() -> (res: Self)
        ensures
            res.valid(),
    {
        let mut rng = backend_os_rng();
        Self::new_with_rng(&mut rng)
    }

    /// Generates a key pair from the given random number generator.
    pub fn new_with_rng<T: rand_core::RngCore + rand_core::CryptoRng>(rng: &mut T) -> (res: Self)
        ensures
            res.valid(),
    {
        let secret = SecretBytes::new(backend_generate(rng));
        let public = backend_public_of(secret.bytes());
        KeyPair { private: PrivateKey { secret }, public: PublicKey { bytes: public } }
    }

    /// The key pair of a private key.
    pub fn from(key: &PrivateKey) -> (res: Self)
        ensures
            res.valid(),
            res.private_view() == key@,
            res.public_view() == ed25519_public_of(key@),
    {
        let public = backend_public_of(key.secret.bytes());
        KeyPair {
            private: PrivateKey { secret: key.secret.duplicate() },
            public: PublicKey { bytes: public },
        }
    }

    /// Reads the key pair from the bytes of its private key.
    pub fn from_bytes(bytes: &[u8]) -> (res: Result<Self, Format>)
        ensures
            res is Ok <==> bytes@.len() == 32,
            res matches Ok(kp) ==> kp.valid() && kp.private_view() == bytes@
                && kp.public_view() == ed25519_public_of(bytes@),
            res matches Err(e) ==> e is InvalidKey,
    {
        match backend_secret_from_bytes(bytes) {
            Ok(secret) => {
                let secret = SecretBytes::new(secret);
                let public = backend_public_of(secret.bytes());
                Ok(KeyPair { private: PrivateKey { secret }, public: PublicKey { bytes: public } })
            },
            Err(e) => Err(Format::InvalidKey(backend_error_text(&e))),
        }
    }

    /// Signs `data` with the private key. The signature has 64 bytes and
    /// the shape of a signature, so that checking it never finds it
    /// malformed.
    pub fn sign(&self, data: &[u8]) -> (res: Result<Signature, Format>)
        ensures
            res matches Ok(s) && s@ == ed25519_signature_of(
                self.private_view(),
                self.public_view(),
                data@,
            ) && s@.len() == 64 && ed25519_signature_shaped(s@),
    {
        proof {
            use_type_invariant(self);
        }
        match backend_sign(self.private.secret.bytes(), &self.public.bytes, data) {
            Ok(s) => Ok(Signature::from_bytes(s.as_slice())),
            Err(e) => Err(
                Format::Signature(
                    error::Signature::InvalidSignatureGeneration(backend_error_text(&e)),
                ),
            ),
        }
    }

    /// The private half.
    pub fn private(&self) -> (res: PrivateKey)
        ensures
            res@ == self.private_view(),
    {
        PrivateKey { secret: self.private.secret.duplicate() }
    }

    /// The public half.
    pub fn public(&self) -> (res: PublicKey)
        ensures
            res@ == self.public_view(),
            res.valid(),
            res@ == ed25519_public_of(self.private_view()),
    {
        proof {
            use_type_invariant(self);
        }
        self.public
    }

    /// The algorithm of the keys.
    pub fn algorithm(&self) -> (res: Algorithm)
        ensures
            res == Algorithm::Ed25519,
    {
        Algorithm::Ed25519
    }

    /// The public key of a valid pair is a key, and the one that the
    /// backend derives from the private key. So two valid pairs with the
    /// same private key are the same pair, and sign alike: a private key
    /// that was written out and read back makes the same signatures.
    pub proof fn lemma_pair_of_private_key(a: KeyPair, b: KeyPair)
        requires
            a.valid(),
            b.valid(),
            a.private_view() == b.private_view(),
        ensures
            ed25519_public_key_decodes(a.public_view()),
            a.public_view() == ed25519_public_of(a.private_view()),
            a.public_view() == b.public_view(),
            forall|message: Seq<u8>|
                ed25519_signature_of(a.private_view(), a.public_view(), message)
                    == #[trigger] ed25519_signature_of(b.private_view(), b.public_view(), message),
    {
    }
}

impl Default for KeyPair {
    fn default() -> (res: Self)
        ensures
            res.valid(),
    {
        Self::new()
    }
}

/// The private key of a [`KeyPair`].
#[derive(Debug)]
pub struct PrivateKey {
    secret: SecretBytes,
}

impl View for PrivateKey {
    type V = Seq<u8>;

    closed spec fn view(&self) -> Seq<u8> {
        self.secret@
    }
}

impl PrivateKey {
    /// What reading a private key from `bytes` gives: the key's bytes, or
    /// the error.
    pub open spec fn decoded(bytes: Seq<u8>) -> Result<Seq<u8>, Format> {
        if bytes.len() == 32 {
            Ok(bytes)
        } else {
            Err(Format::InvalidKeySize(bytes.len() as usize))
        }
    }

    /// The bytes of the key.
    pub fn to_bytes(&self) -> (res: Vec<u8>)
        ensures
            res@ == self@,
    {
        slice_to_vec(self.secret.bytes().as_slice())
    }

    /// The bytes of the key as hexadecimal text.
    pub fn to_bytes_hex(&self) -> (res: String)
        ensures
            res@ == hex_text(self@),
    {
        let bytes = self.to_bytes();
        hex_encode(bytes.as_slice())
    }

    /// Reads the key from its bytes.
    pub fn from_bytes(bytes: &[u8]) -> (res: Result<Self, Format>)
        ensures
            match Self::decoded(bytes@) {
                Ok(view) => res matches Ok(k) && k@ == view,
                Err(e) => res == Err::<Self, Format>(e),
            },
    {
        if bytes.len() != 32 {
            return Err(Format::InvalidKeySize(bytes.len()));
        }
        match backend_secret_from_bytes(bytes) {
            Ok(secret) => Ok(PrivateKey { secret: SecretBytes::new(secret) }),
            Err(e) => Err(Format::InvalidKey(backend_error_text(&e))),
        }
    }

    /// Reads the key from hexadecimal text.
    pub fn from_bytes_hex(str: &str) -> (res: Result<Self, Format>)
        ensures
            !is_hex_text(str@) ==> (res matches Err(e) && e is InvalidKey),
            is_hex_text(str@) ==> match Self::decoded(hex_bytes(str@)) {
                Ok(view) => res matches Ok(k) && k@ == view,
                Err(e) => res == Err::<Self, Format>(e),
            },
    {
        match hex_decode(str) {
            Ok(bytes) => Self::from_bytes(bytes.as_slice()),
            Err(e) => Err(Format::InvalidKey(hex_error_text(&e))),
        }
    }

    /// The public key that belongs to the key.
    pub fn public(&self) -> (res: PublicKey)
        ensures
            res@ == ed25519_public_of(self@),
            res.valid(),
    {
        PublicKey { bytes: backend_public_of(self.secret.bytes()) }
    }

    /// The algorithm of the key.
    pub fn algorithm(&self) -> (res: Algorithm)
        ensures
            res == Algorithm::Ed25519,
    {
        Algorithm::Ed25519
    }

    /// A private key has 32 bytes, and reading them back gives the same key.
    pub proof fn lemma_bytes_round_trip(key: PrivateKey)
        ensures
            key@.len() == 32,
            Self::decoded(key@) == Ok::<Seq<u8>, Format>(key@),
            is_hex_text(hex_text(key@)),
            Self::decoded(hex_bytes(hex_text(key@))) == Ok::<Seq<u8>, Format>(key@),
    {
        key.secret.lemma_len();
        crate::crypto::encoding::lemma_hex_round_trip(key@);
    }
}

impl Clone for PrivateKey {
    /// Copies the key by writing it out and reading it back.
    fn clone(&self) -> (res: Self)
        ensures
            res@ == self@,
    {
        let bytes = self.to_bytes();
        match PrivateKey::from_bytes(bytes.as_slice()) {
            Ok(k) => k,
            Err(_) => PrivateKey { secret: self.secret.duplicate() },
        }
    }
}

/// The public key of a [`KeyPair`].
#[derive(Debug, Clone, Copy, Eq, Hash)]
pub struct PublicKey {
    bytes: [u8; 32],
}

impl View for PublicKey {
    type V = Seq<u8>;

    closed spec fn view(&self) -> Seq<u8> {
        self.bytes@
    }
}

impl PartialEq for PublicKey {
    fn eq(&self, other: &Self) -> (res: bool)
    {
        bytes_equal(self.bytes.as_slice(), other.bytes.as_slice())
    }
}

impl PartialEqSpecImpl for PublicKey {
    open spec fn obeys_eq_spec() -> bool {
        true
    }

    open spec fn eq_spec(&self, other: &Self) -> bool {
        self@ == other@
    }
}

impl PublicKey {
    #[verifier::type_invariant]
    spec fn well_formed(self) -> bool {
        self.valid()
    }

    /// Whether the bytes are those of a key that the backend accepts. Every
    /// public key that this crate hands out is valid.
    pub closed spec fn valid(&self) -> bool {
        ed25519_public_key_decodes(self.bytes@)
    }

    /// What the message of an unexpected algorithm says.
    pub open spec fn unexpected_algorithm_text(algorithm: i32) -> Seq<char> {
        "deserialization error: unexpected key algorithm "@ + error::decimal_text(algorithm as int)
    }

    /// The bytes of the key, 32 of them.
    pub fn to_bytes(&self) -> (res: [u8; 32])
        ensures
            res@ == self@,
            res@.len() == 32,
    {
        self.bytes
    }

    /// The bytes of the key as hexadecimal text.
    pub fn to_bytes_hex(&self) -> (res: String)
        ensures
            res@ == hex_text(self@),
    {
        hex_encode(self.bytes.as_slice())
    }

    /// Reads the key from its bytes.
    pub fn from_bytes(bytes: &[u8]) -> (res: Result<Self, Format>)
        ensures
            res is Ok <==> ed25519_public_key_decodes(bytes@),
            res matches Ok(k) ==> k@ == bytes@ && k.valid(),
            res matches Err(e) ==> e is InvalidKey,
    {
        match backend_public_from_bytes(bytes) {
            Ok(b) => Ok(PublicKey { bytes: b }),
            Err(e) => Err(Format::InvalidKey(backend_error_text(&e))),
        }
    }

    /// Reads the key from hexadecimal text.
    pub fn from_bytes_hex(str: &str) -> (res: Result<Self, Format>)
        ensures
            res is Ok <==> is_hex_text(str@) && ed25519_public_key_decodes(hex_bytes(str@)),
            res matches Ok(k) ==> k@ == hex_bytes(str@) && k.valid(),
            res matches Err(e) ==> e is InvalidKey,
    {
        match hex_decode(str) {
            Ok(bytes) => Self::from_bytes(bytes.as_slice()),
            Err(e) => Err(Format::InvalidKey(hex_error_text(&e))),
        }
    }

    /// Reads a key from its wire message, which must name this algorithm.
    pub fn from_proto(key: &schema::PublicKey) -> (res: Result<Self, Format>)
        ensures
            res is Ok <==> key.algorithm == Algorithm::Ed25519.spec_tag()
                && ed25519_public_key_decodes(key.key@),
            res matches Ok(k) ==> k@ == key.key@ && k.valid(),
            key.algorithm != Algorithm::Ed25519.spec_tag() ==> (res matches Err(
                Format::DeserializationError(text),
            ) && text@ == Self::unexpected_algorithm_text(key.algorithm)),
            key.algorithm == Algorithm::Ed25519.spec_tag() ==> (res is Ok || res matches Err(
                Format::InvalidKey(_),
            )),
    {
        if key.algorithm != Algorithm::Ed25519.tag() {
            let number = error::i32_text(key.algorithm);
            let text = String::from_str("deserialization error: unexpected key algorithm ").concat(
                number.as_str(),
            );
            return Err(Format::DeserializationError(text));
        }
        PublicKey::from_bytes(key.key.as_slice())
    }

    /// The wire message of the key. Its bytes are a key that reads.
    pub fn to_proto(&self) -> (res: schema::PublicKey)
        ensures
            res.algorithm == Algorithm::Ed25519.spec_tag(),
            res.key@ == self@,
            res.key@.len() == 32,
            ed25519_public_key_decodes(res.key@),
            self.valid(),
    {
        proof {
            use_type_invariant(self);
        }
        schema::PublicKey {
            algorithm: Algorithm::Ed25519.tag(),
            key: slice_to_vec(self.bytes.as_slice()),
        }
    }

    /// What checking `signature` for `data` under a key with bytes `key`
    /// comes to.
    pub open spec fn signature_verdict(key: Seq<u8>, data: Seq<u8>, signature: Seq<u8>) -> Verdict {
        if !ed25519_signature_shaped(signature) {
            Verdict::Malformed
        } else if ed25519_verifies_strict(key, data, signature) {
            Verdict::Valid
        } else {
            Verdict::Rejected
        }
    }

    /// Checks, strictly, that `signature` is a signature of `data` by the
    /// private key that belongs to this key.
    pub fn verify_signature(&self, data: &[u8], signature: &Signature) -> (res: Result<(), Format>)
        ensures
            match Self::signature_verdict(self@, data@, signature@) {
                Verdict::Valid => res is Ok,
                Verdict::Malformed => res matches Err(Format::SignatureDeserializationError(_)),
                Verdict::Rejected => res matches Err(
                    Format::Signature(error::Signature::InvalidSignature(_)),
                ),
            },
    {
        proof {
            use_type_invariant(self);
        }
        let sig = match backend_signature_from_bytes(signature.to_bytes()) {
            Ok(sig) => sig,
            Err(e) => {
                let text = String::from_str("signature deserialization error: ").concat(
                    backend_error_debug(&e).as_str(),
                );
                return Err(Format::SignatureDeserializationError(text));
            },
        };
        match backend_verify_strict(&self.bytes, data, &sig) {
            Ok(()) => Ok(()),
            Err(e) => Err(
                Format::Signature(error::Signature::InvalidSignature(backend_error_text(&e))),
            ),
        }
    }

    /// The algorithm of the key.
    pub fn algorithm(&self) -> (res: Algorithm)
        ensures
            res == Algorithm::Ed25519,
    {
        Algorithm::Ed25519
    }

    /// The key in readable form: the algorithm's name, a slash, the bytes in
    /// hexadecimal.
    pub fn print(&self) -> (res: String)
        ensures
            res@ == "ed25519/"@ + hex_text(self@),
    {
        String::from_str("ed25519/").concat(self.to_bytes_hex().as_str())
    }

    /// Two keys with the same bytes are the same key.
    pub proof fn lemma_view_injective(a: PublicKey, b: PublicKey)
        requires
            a@ == b@,
        ensures
            a == b,
    {
        assert(a.bytes =~= b.bytes);
    }

    /// A valid public key has 32 bytes, and reading them back gives the same
    /// key.
    pub proof fn lemma_bytes_round_trip(key: PublicKey)
        requires
            key.valid(),
        ensures
            key@.len() == 32,
            ed25519_public_key_decodes(key@),
            is_hex_text(hex_text(key@)),
            hex_bytes(hex_text(key@)) == key@,
    {
        crate::crypto::encoding::lemma_hex_round_trip(key@);
    }
}

} // verus!
