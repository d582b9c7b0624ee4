//! ECDSA keys on the NIST P-256 curve, backed by the `p256` crate.
//!
//! A private key is held as its scalar, a public key as its compressed
//! point; the backend is called on those bytes.

use vstd::prelude::*;
use vstd::slice::slice_to_vec;
use vstd::string::StringExecFns;
use vstd::std_specs::cmp::PartialEqSpecImpl;
use crate::crypto::{bytes_equal, Signature, Verdict};
use crate::crypto::secret::{SecretBytes, SecretDocument};
use crate::crypto::encoding::{
    hex_bytes, hex_decode, hex_encode, hex_error_text, hex_text, is_hex_text,
};
use crate::error;
use crate::error::Format;
use crate::format::schema;
use crate::format::schema::Algorithm;

verus! {

/// The backend's signature error, carried from a backend call to the place
/// where it is turned into one of this crate's errors.
#[verifier::external_type_specification]
#[verifier::external_body]
pub struct ExEcdsaError(::p256::ecdsa::Error);

/// The error of the PKCS#8 reader and writer.
#[verifier::external_type_specification]
#[verifier::external_body]
pub struct ExPkcs8Error(pkcs8::Error);

/// The operating system's random number generator, as this backend takes it.
#[verifier::external_type_specification]
#[verifier::external_body]
pub struct ExOsRng(::p256::elliptic_curve::rand_core::OsRng);

/// The scalar of the private key that the backend reads from a PKCS#8
/// document, if it reads one.
pub uninterp spec fn p256_scalar_of_document(document: Seq<u8>) -> Option<Seq<u8>>;

/// The PKCS#8 document that the backend writes for a private key.
pub uninterp spec fn p256_document_of(scalar: Seq<u8>) -> Seq<u8>;

/// The compressed point of the public key that the backend reads from SEC1
/// bytes, if it reads one.
pub uninterp spec fn p256_compressed_point(bytes: Seq<u8>) -> Option<Seq<u8>>;

/// The compressed point of the public key that belongs to the private key
/// with this scalar, if the backend takes the bytes for the scalar of a
/// private key.
pub uninterp spec fn p256_public_of(scalar: Seq<u8>) -> Option<Seq<u8>>;

/// The signature that the backend makes for a message with a private key, if
/// it makes one.
pub uninterp spec fn p256_signature_of(scalar: Seq<u8>, message: Seq<u8>) -> Option<Seq<u8>>;

/// Whether the backend reads these bytes as a signature.
pub uninterp spec fn p256_signature_parses(bytes: Seq<u8>) -> bool;

/// Whether the backend accepts a signature for a message under a public key.
pub uninterp spec fn p256_verifies(public: Seq<u8>, message: Seq<u8>, signature: Seq<u8>) -> bool;

/// Calls `SigningKey::from_pkcs8_der` and hands back the key's scalar, which
/// is the scalar of a private key.
#[verifier::external_body]
fn backend_scalar_from_document(document: &[u8]) -> (res: Result<[u8; 32], pkcs8::Error>)
    ensures
        res is Ok <==> p256_scalar_of_document(document@) is Some,
        res matches Ok(s) ==> p256_scalar_of_document(document@) == Some(s@) && p256_public_of(s@) is Some,
{
    let key: ::p256::ecdsa::SigningKey = pkcs8::DecodePrivateKey::from_pkcs8_der(document)?;
    Ok(key.to_bytes().into())
}

/// Calls `to_pkcs8_der` on the key with this scalar. The writer refuses no
/// key, and the document it writes reads back as the same key.
#[verifier::external_body]
fn backend_document_of(scalar: &[u8; 32]) -> (res: Result<Vec<u8>, pkcs8::Error>)
    requires
        p256_public_of(scalar@) is Some,
    ensures
        res is Ok,
        res matches Ok(d) ==> d@ == p256_document_of(scalar@) && p256_scalar_of_document(d@)
            == Some(scalar@),
{
    let key = ::p256::ecdsa::SigningKey::from_slice(scalar).unwrap();
    let document = pkcs8::EncodePrivateKey::to_pkcs8_der(&key)?;
    Ok(document.as_bytes().to_vec())
}

/// Calls `SigningKey::random` and hands back the key's scalar, which is
/// the scalar of a private key.
#[verifier::external_body]
fn backend_generate<T: ::p256::elliptic_curve::rand_core::RngCore + ::p256::elliptic_curve::rand_core::CryptoRng>(
    rng: &mut T,
) -> (res: [u8; 32])
    ensures
        p256_public_of(res@) is Some,
{
    ::p256::ecdsa::SigningKey::random(rng).to_bytes().into()
}

/// Hands out the operating system's random number generator.
#[verifier::external_body]
fn backend_os_rng() -> (res: ::p256::elliptic_curve::rand_core::OsRng)
{
    ::p256::elliptic_curve::rand_core::OsRng
}

/// Calls `SigningKey::from_slice` on the scalar and takes the verifying key
/// of the signing key, and hands back its compressed point, which has 33
/// bytes and reads back as itself.
#[verifier::external_body]
fn backend_public_of(scalar: &[u8; 32]) -> (res: Result<Vec<u8>, ::p256::ecdsa::Error>)
    ensures
        res is Ok <==> p256_public_of(scalar@) is Some,
        res matches Ok(point) ==> p256_public_of(scalar@) == Some(point@) && p256_compressed_point(
            point@,
        ) == Some(point@) && point@.len() == 33,
{
    let key = ::p256::ecdsa::SigningKey::from_slice(scalar)?;
    Ok(key.verifying_key().to_encoded_point(true).as_bytes().to_vec())
}

/// Calls `VerifyingKey::from_sec1_bytes` and hands back the key's compressed
/// point, which has 33 bytes and reads back as itself.
#[verifier::external_body]
fn backend_public_from_bytes(bytes: &[u8]) -> (res: Result<Vec<u8>, ::p256::ecdsa::Error>)
    ensures
        res is Ok <==> p256_compressed_point(bytes@) is Some,
        res matches Ok(c) ==> p256_compressed_point(bytes@) == Some(c@) && p256_compressed_point(
            c@,
        ) == Some(c@) && c@.len() == 33,
{
    let key = ::p256::ecdsa::VerifyingKey::from_sec1_bytes(bytes)?;
    Ok(key.to_encoded_point(true).as_bytes().to_vec())
}

/// Calls the backend's `try_sign` on the key with this scalar. A signature
/// is written as 64 bytes.
#[verifier::external_body]
fn backend_sign(scalar: &[u8; 32], message: &[u8]) -> (res: Result<Vec<u8>, ::p256::ecdsa::Error>)
    requires
        p256_public_of(scalar@) is Some,
    ensures
        res is Ok <==> p256_signature_of(scalar@, message@) is Some,
        res matches Ok(s) ==> p256_signature_of(scalar@, message@) == Some(s@) && s@.len() == 64,
{
    let key = ::p256::ecdsa::SigningKey::from_slice(scalar).unwrap();
    let signature: ::p256::ecdsa::Signature = ::p256::ecdsa::signature::Signer::try_sign(&key, message)?;
    Ok(signature.to_vec())
}

/// Calls `Signature::try_from` on the bytes, which reads 64 bytes and
/// nothing else, and hands them back.
#[verifier::external_body]
fn backend_signature_from_bytes(bytes: &[u8]) -> (res: Result<Vec<u8>, ::p256::ecdsa::Error>)
    ensures
        res is Ok <==> p256_signature_parses(bytes@),
        res is Ok ==> bytes@.len() == 64,
        res matches Ok(s) ==> s@ == bytes@,
{
    ::p256::ecdsa::Signature::try_from(bytes).map(|s| s.to_vec())
}

/// Calls the backend's `verify` on the key and the signature made of these
/// bytes.
#[verifier::external_body]
fn backend_verify(public: &[u8], message: &[u8], signature: &[u8]) -> (res: Result<(), ::p256::ecdsa::Error>)
    requires
        p256_compressed_point(public@) == Some(public@),
        p256_signature_parses(signature@),
    ensures
        res is Ok <==> p256_verifies(public@, message@, signature@),
{
    let key = ::p256::ecdsa::VerifyingKey::from_sec1_bytes(public).unwrap();
    let signature = ::p256::ecdsa::Signature::try_from(signature).unwrap();
    ::p256::ecdsa::signature::Verifier::verify(&key, message, &signature)
}

/// Renders a signature error with its `Display` impl.
#[verifier::external_body]
fn backend_error_text(e: &::p256::ecdsa::Error) -> (res: String)
{
    e.to_string()
}

/// Renders a signature error with its `Debug` impl.
#[verifier::external_body]
fn backend_error_debug(e: &::p256::ecdsa::Error) -> (res: String)
{
    format!("{:?}", e)
}

/// Renders a PKCS#8 error with its `Display` impl.
#[verifier::external_body]
fn document_error_text(e: &pkcs8::Error) -> (res: String)
{
    e.to_string()
}

/// A pair of keys: the private key that signs, and the public key that
/// checks what was signed.
#[derive(Debug)]
pub struct KeyPair {
    private: PrivateKey,
}

impl KeyPair {
    #[verifier::type_invariant]
    spec fn well_formed(self) -> bool {
        self.valid()
    }

    /// Whether the private key is one that the backend takes. Every key
    /// pair that this crate hands out is valid.
    pub closed spec fn valid(&self) -> bool {
        self.private.valid()
    }

    /// The scalar of the private key.
    pub closed spec fn private_view(&self) -> Seq<u8> {
        self.private@
    }

    /// The compressed point of the public key.
    pub open spec fn public_view(&self) -> Seq<u8> {
        p256_public_of(self.private_view()).unwrap()
    }

    /// Generates a key pair from the operating system's random number
    /// generator.
    pub fn new() -> (res: Self)
        ensures
            res.valid(),
    {
        let mut rng = backend_os_rng();
        Self::new_with_rng(&mut rng)
    }

    /// Generates a key pair from the given random number generator.
    pub fn new_with_rng<T: ::p256::elliptic_curve::rand_core::RngCore + ::p256::elliptic_curve::rand_core::CryptoRng>(
        rng: &mut T,
    ) -> (res: Self)
        ensures
            res.valid(),
    {
        let scalar = backend_generate(rng);
        KeyPair { private: PrivateKey { scalar: SecretBytes::new(scalar) } }
    }

    /// The key pair of a private key.
    pub fn from(key: &PrivateKey) -> (res: Self)
        ensures
            res.valid(),
            res.private_view() == key@,
    {
        proof {
            use_type_invariant(key);
        }
        KeyPair { private: PrivateKey { scalar: key.scalar.duplicate() } }
    }

    /// Reads the key pair from the PKCS#8 document of its private key.
    pub fn from_bytes(bytes: &[u8]) -> (res: Result<Self, Format>)
        ensures
            res is Ok <==> p256_scalar_of_document(bytes@) is Some,
            res matches Ok(kp) ==> kp.valid() && Some(kp.private_view())
                == p256_scalar_of_document(bytes@),
            res matches Err(e) ==> e is InvalidKey,
    {
        match backend_scalar_from_document(bytes) {
            Ok(scalar) => Ok(KeyPair { private: PrivateKey { scalar: SecretBytes::new(scalar) } }),
            Err(e) => Err(Format::InvalidKey(document_error_text(&e))),
        }
    }

    /// Signs `data` with the private key. The signature has 64 bytes.
    pub fn sign(&self, data: &[u8]) -> (res: Result<Signature, Format>)
        ensures
            match p256_signature_of(self.private_view(), data@) {
                Some(s) => res matches Ok(signature) && signature@ == s && signature@.len() == 64,
                None => res matches Err(
                    Format::Signature(error::Signature::InvalidSignatureGeneration(_)),
                ),
            },
    {
        proof {
            use_type_invariant(self);
        }
        match backend_sign(self.private.scalar.bytes(), data) {
            Ok(s) => Ok(Signature::from_vec(s)),
            Err(e) => Err(
                Format::Signature(
                    error::Signature::InvalidSignatureGeneration(backend_error_text(&e)),
                ),
            ),
        }
    }

    /// The private half.
    pub fn private(&self) -> (res: PrivateKey)
        ensures
            res@ == self.private_view(),
            res.valid(),
    {
        proof {
            use_type_invariant(self);
        }
        PrivateKey { scalar: self.private.scalar.duplicate() }
    }

    /// The public half.
    pub fn public(&self) -> (res: PublicKey)
        ensures
            res@ == self.public_view(),
            res.valid(),
    {
        proof {
            use_type_invariant(self);
        }
        self.private.public()
    }

    /// The algorithm of the keys.
    pub fn algorithm(&self) -> (res: Algorithm)
        ensures
            res == Algorithm::P256,
    {
        Algorithm::P256
    }
}

impl Default for KeyPair {
    fn default() -> (res: Self)
        ensures
            res.valid(),
    {
        Self::new()
    }
}

/// The private key of a [`KeyPair`].
#[derive(Debug)]
pub struct PrivateKey {
    scalar: SecretBytes,
}

impl View for PrivateKey {
    type V = Seq<u8>;

    closed spec fn view(&self) -> Seq<u8> {
        self.scalar@
    }
}

impl PrivateKey {
    #[verifier::type_invariant]
    spec fn well_formed(self) -> bool {
        self.valid()
    }

    /// Whether the scalar is one that the backend takes. Every private key
    /// that this crate hands out is valid.
    pub closed spec fn valid(&self) -> bool {
        p256_public_of(self.scalar@) is Some
    }

    /// The key as a PKCS#8 document, which reads back as the same key.
    pub fn to_bytes(&self) -> (res: SecretDocument)
        ensures
            res@ == p256_document_of(self@),
            p256_scalar_of_document(res@) == Some(self@),
    {
        proof {
            use_type_invariant(self);
        }
        match backend_document_of(self.scalar.bytes()) {
            Ok(document) => SecretDocument::new(document),
            Err(_) => SecretDocument::new(Vec::new()),
        }
    }

    /// The PKCS#8 document of the key as hexadecimal text.
    pub fn to_bytes_hex(&self) -> (res: String)
        ensures
            res@ == hex_text(p256_document_of(self@)),
    {
        let bytes = self.to_bytes();
        hex_encode(bytes.as_slice())
    }

    /// Reads the key from its bytes.
    pub fn from_bytes(bytes: &[u8]) -> (res: Result<Self, Format>)
        ensures
            res is Ok <==> p256_scalar_of_document(bytes@) is Some,
            res matches Ok(k) ==> Some(k@) == p256_scalar_of_document(bytes@) && k.valid(),
            res matches Err(e) ==> e is InvalidKey,
    {
        match backend_scalar_from_document(bytes) {
            Ok(scalar) => Ok(PrivateKey { scalar: SecretBytes::new(scalar) }),
            Err(e) => Err(Format::InvalidKey(document_error_text(&e))),
        }
    }

    /// Reads the key from hexadecimal text.
    pub fn from_bytes_hex(str: &str) -> (res: Result<Self, Format>)
        ensures
            res is Ok <==> is_hex_text(str@) && p256_scalar_of_document(hex_bytes(str@)) is Some,
            res matches Ok(k) ==> Some(k@) == p256_scalar_of_document(hex_bytes(str@))
                && k.valid(),
            res matches Err(e) ==> e is InvalidKey,
    {
        match hex_decode(str) {
            Ok(bytes) => Self::from_bytes(bytes.as_slice()),
            Err(e) => Err(Format::InvalidKey(hex_error_text(&e))),
        }
    }

    /// The public key that belongs to the key.
    pub fn public(&self) -> (res: PublicKey)
        ensures
            Some(res@) == p256_public_of(self@),
            res.valid(),
    {
        proof {
            use_type_invariant(self);
        }
        match backend_public_of(self.scalar.bytes()) {
            Ok(bytes) => PublicKey { bytes },
            Err(_) => PublicKey { bytes: Vec::new() },
        }
    }

    /// The algorithm of the key.
    pub fn algorithm(&self) -> (res: Algorithm)
        ensures
            res == Algorithm::P256,
    {
        Algorithm::P256
    }
}

impl Clone for PrivateKey {
    /// Copies the key by writing it out and reading it back.
    fn clone(&self) -> (res: Self)
        ensures
            res@ == self@,
    {
        proof {
            use_type_invariant(self);
        }
        let bytes = self.to_bytes();
        match PrivateKey::from_bytes(bytes.as_slice()) {
            Ok(k) => k,
            Err(_) => PrivateKey { scalar: self.scalar.duplicate() },
        }
    }
}

/// The public key of a [`KeyPair`].
#[derive(Debug, Eq, Hash)]
pub struct PublicKey {
    bytes: Vec<u8>,
}

impl View for PublicKey {
    type V = Seq<u8>;

    closed spec fn view(&self) -> Seq<u8> {
        self.bytes@
    }
}

impl Clone for PublicKey {
    fn clone(&self) -> (res: Self)
        ensures
            res@ == self@,
            res.valid(),
    {
        proof {
            use_type_invariant(self);
        }
        PublicKey { bytes: slice_to_vec(self.bytes.as_slice()) }
    }
}

impl PartialEq for PublicKey {
    fn eq(&self, other: &Self) -> (res: bool)
    {
        bytes_equal(self.bytes.as_slice(), other.bytes.as_slice())
    }
}

impl PartialEqSpecImpl for PublicKey {
    open spec fn obeys_eq_spec() -> bool {
        true
    }

    open spec fn eq_spec(&self, other: &Self) -> bool {
        self@ == other@
    }
}

impl PublicKey {
    #[verifier::type_invariant]
    spec fn well_formed(self) -> bool {
        self.valid()
    }

    /// Whether the bytes are the compressed point of a key that the backend
    /// accepts. Every public key that this crate hands out is valid.
    pub closed spec fn valid(&self) -> bool {
        &&& p256_compressed_point(self.bytes@) == Some(self.bytes@)
        &&& self.bytes@.len() == 33
    }

    /// What the message of an unexpected algorithm says.
    pub open spec fn unexpected_algorithm_text(algorithm: i32) -> Seq<char> {
        "deserialization error: unexpected key algorithm "@ + error::decimal_text(algorithm as int)
    }

    /// The bytes of the key: its compressed point, 33 bytes.
    pub fn to_bytes(&self) -> (res: Vec<u8>)
        ensures
            res@ == self@,
            res@.len() == 33,
    {
        proof {
            use_type_invariant(self);
        }
        slice_to_vec(self.bytes.as_slice())
    }

    /// The bytes of the key as hexadecimal text.
    pub fn to_bytes_hex(&self) -> (res: String)
        ensures
            res@ == hex_text(self@),
    {
        hex_encode(self.bytes.as_slice())
    }

    /// Reads the key from its bytes.
    pub fn from_bytes(bytes: &[u8]) -> (res: Result<Self, Format>)
        ensures
            res is Ok <==> p256_compressed_point(bytes@) is Some,
            res matches Ok(k) ==> Some(k@) == p256_compressed_point(bytes@) && k.valid(),
            res matches Err(e) ==> e is InvalidKey,
    {
        match backend_public_from_bytes(bytes) {
            Ok(b) => Ok(PublicKey { bytes: b }),
            Err(e) => Err(Format::InvalidKey(backend_error_text(&e))),
        }
    }

    /// Reads the key from hexadecimal text.
    pub fn from_bytes_hex(str: &str) -> (res: Result<Self, Format>)
        ensures
            res is Ok <==> is_hex_text(str@) && p256_compressed_point(hex_bytes(str@)) is Some,
            res matches Ok(k) ==> Some(k@) == p256_compressed_point(hex_bytes(str@)) && k.valid(),
            res matches Err(e) ==> e is InvalidKey,
    {
        match hex_decode(str) {
            Ok(bytes) => Self::from_bytes(bytes.as_slice()),
            Err(e) => Err(Format::InvalidKey(hex_error_text(&e))),
        }
    }

    /// Reads a key from its wire message, which must name this algorithm.
    pub fn from_proto(key: &schema::PublicKey) -> (res: Result<Self, Format>)
        ensures
            res is Ok <==> key.algorithm == Algorithm::P256.spec_tag() && p256_compressed_point(
                key.key@,
            ) is Some,
            res matches Ok(k) ==> Some(k@) == p256_compressed_point(key.key@) && k.valid(),
            key.algorithm != Algorithm::P256.spec_tag() ==> (res matches Err(
                Format::DeserializationError(text),
            ) && text@ == Self::unexpected_algorithm_text(key.algorithm)),
            key.algorithm == Algorithm::P256.spec_tag() ==> (res is Ok || res matches Err(
                Format::InvalidKey(_),
            )),
    {
        if key.algorithm != Algorithm::P256.tag() {
            let number = error::i32_text(key.algorithm);
            let text = String::from_str("deserialization error: unexpected key algorithm ").concat(
                number.as_str(),
            );
            return Err(Format::DeserializationError(text));
        }
        PublicKey::from_bytes(key.key.as_slice())
    }

    /// The wire message of the key. Its bytes are a key that reads back as
    /// this key.
    pub fn to_proto(&self) -> (res: schema::PublicKey)
        ensures
            res.algorithm == Algorithm::P256.spec_tag(),
            res.key@ == self@,
            res.key@.len() == 33,
            p256_compressed_point(res.key@) == Some(self@),
            self.valid(),
    {
        proof {
            use_type_invariant(self);
        }
        schema::PublicKey { algorithm: Algorithm::P256.tag(), key: self.to_bytes() }
    }

    /// What checking `signature` for `data` under a key with bytes `key`
    /// comes to.
    pub open spec fn signature_verdict(key: Seq<u8>, data: Seq<u8>, signature: Seq<u8>) -> Verdict {
        if !p256_signature_parses(signature) {
            Verdict::Malformed
        } else if p256_verifies(key, data, signature) {
            Verdict::Valid
        } else {
            Verdict::Rejected
        }
    }

    /// Checks that `signature` is a signature of `data` by the private key
    /// that belongs to this key.
    pub fn verify_signature(&self, data: &[u8], signature: &Signature) -> (res: Result<(), Format>)
        ensures
            match Self::signature_verdict(self@, data@, signature@) {
                Verdict::Valid => res is Ok,
                Verdict::Malformed => res matches Err(Format::SignatureDeserializationError(_)),
                Verdict::Rejected => res matches Err(
                    Format::Signature(error::Signature::InvalidSignature(_)),
                ),
            },
    {
        proof {
            use_type_invariant(self);
        }
        let sig = match backend_signature_from_bytes(signature.to_bytes()) {
            Ok(sig) => sig,
            Err(e) => {
                let text = String::from_str("signature deserialization error: ").concat(
                    backend_error_debug(&e).as_str(),
                );
                return Err(Format::SignatureDeserializationError(text));
            },
        };
        match backend_verify(self.bytes.as_slice(), data, sig.as_slice()) {
            Ok(()) => Ok(()),
            Err(e) => Err(
                Format::Signature(error::Signature::InvalidSignature(backend_error_text(&e))),
            ),
        }
    }

    /// The algorithm of the key.
    pub fn algorithm(&self) -> (res: Algorithm)
        ensures
            res == Algorithm::P256,
    {
        Algorithm::P256
    }

    /// The key in readable form: the algorithm's name, a slash, the bytes in
    /// hexadecimal.
    pub fn print(&self) -> (res: String)
        ensures
            res@ == "p256/"@ + hex_text(self@),
    {
        String::from_str("p256/").concat(self.to_bytes_hex().as_str())
    }

    /// A valid public key reads back from its bytes, and from their
    /// hexadecimal text, as the same key.
    pub proof fn lemma_bytes_round_trip(key: PublicKey)
        requires
            key.valid(),
        ensures
            key@.len() == 33,
            p256_compressed_point(key@) == Some(key@),
            is_hex_text(hex_text(key@)),
            hex_bytes(hex_text(key@)) == key@,
    {
        crate::crypto::encoding::lemma_hex_round_trip(key@);
    }
}

} // verus!
