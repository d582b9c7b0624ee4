//! Error types returned by the library.

use vstd::prelude::*;

verus! {

/// Failures of signature generation and verification.
#[derive(Clone, Debug, PartialEq, Eq)]
pub enum Signature {
    /// The signature does not match the key and the message.
    InvalidSignature(String),
    /// The signing backend could not produce a signature.
    InvalidSignatureGeneration(String),
}

/// Failures while reading or writing the token's wire form.
#[derive(Clone, Debug, PartialEq, Eq)]
pub enum Format {
    /// A signature could not be produced or did not verify.
    Signature(Signature),
    /// A message could not be decoded, or a decoded message is not acceptable.
    DeserializationError(String),
    /// A message could not be encoded.
    SerializationError(String),
    /// The schema version lies outside the supported range.
    Version { maximum: u32, minimum: u32, actual: u32 },
    /// A key was given with the wrong number of bytes.
    InvalidKeySize(usize),
    /// The bytes do not encode a key.
    InvalidKey(String),
    /// The bytes do not encode a signature.
    SignatureDeserializationError(String),
    /// The bytes do not encode a block signature.
    BlockSignatureDeserializationError(String),
    /// Two symbol tables that must not share a symbol do.
    SymbolTableOverlap,
    /// Two public key tables that must not share a key do.
    PublicKeyTableOverlap,
    /// A block refers to an external key that the key table does not hold.
    UnknownExternalKey,
    /// A symbol number stands for no symbol of the table.
    UnknownSymbol(u64),
}

/// Failures of token level operations.
#[derive(Clone, Debug, PartialEq, Eq)]
pub enum Token {
    /// The wire form was not acceptable.
    Format(Format),
}

/// The decimal digits of a natural number, most significant first.
pub open spec fn decimal_digits(n: nat) -> Seq<char>
    decreases n,
{
    if n < 10 {
        seq![(n + 48) as char]
    } else {
        decimal_digits(n / 10).push((n % 10 + 48) as char)
    }
}

/// The decimal text of an integer, with a minus sign before a negative one.
pub open spec fn decimal_text(n: int) -> Seq<char> {
    if n < 0 {
        seq!['-'] + decimal_digits((-n) as nat)
    } else {
        decimal_digits(n as nat)
    }
}

/// Writes a number with std's `to_string`, which gives its decimal text.
#[verifier::external_body]
pub(crate) fn i32_text(n: i32) -> (res: String)
    ensures
        res@ == decimal_text(n as int),
{
    n.to_string()
}

} // verus!
