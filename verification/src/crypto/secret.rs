//! Secret bytes that are wiped when their owner goes away.

use vstd::prelude::*;

verus! {

/// Overwrites the bytes with zeroes through `zeroize::Zeroize::zeroize`.
#[verifier::external_body]
fn wipe(bytes: &mut [u8; 32])
    ensures
        final(bytes)@ == Seq::new(32, |i: int| 0u8),
    opens_invariants none
    no_unwind
{
    zeroize::Zeroize::zeroize(bytes)
}

/// Overwrites the bytes of the vector with zeroes and empties it, through
/// `zeroize::Zeroize::zeroize`.
#[verifier::external_body]
fn wipe_document(bytes: &mut Vec<u8>)
    ensures
        final(bytes)@.len() == 0,
    opens_invariants none
    no_unwind
{
    zeroize::Zeroize::zeroize(bytes)
}

/// The 32 secret bytes of a private key. They are overwritten with zeroes
/// when the value is dropped, on whatever path that happens.
#[derive(Debug)]
pub struct SecretBytes {
    bytes: [u8; 32],
}

impl View for SecretBytes {
    type V = Seq<u8>;

    closed spec fn view(&self) -> Seq<u8> {
        self.bytes@
    }
}

impl SecretBytes {
    /// Takes ownership of the secret.
    pub fn new(bytes: [u8; 32]) -> (res: Self)
        ensures
            res@ == bytes@,
    {
        SecretBytes { bytes }
    }

    /// The secret, for handing to the backend.
    pub fn bytes(&self) -> (res: &[u8; 32])
        ensures
            res@ == self@,
    {
        &self.bytes
    }

    /// A second owner of the same secret, wiped on its own.
    pub fn duplicate(&self) -> (res: Self)
        ensures
            res@ == self@,
    {
        SecretBytes { bytes: self.bytes }
    }

    /// A secret has 32 bytes.
    pub proof fn lemma_len(self)
        ensures
            self@.len() == 32,
    {
    }
}

impl Drop for SecretBytes {
    /// Wipes the secret.
    fn drop(&mut self)
        ensures
            final(self)@ == Seq::new(32, |i: int| 0u8),
        opens_invariants none
        no_unwind
    {
        wipe(&mut self.bytes);
    }
}

/// A private key written out as a document. The bytes are overwritten with
/// zeroes when the value is dropped, on whatever path that happens.
#[derive(Debug, PartialEq, Eq)]
pub struct SecretDocument {
    bytes: Vec<u8>,
}

impl View for SecretDocument {
    type V = Seq<u8>;

    closed spec fn view(&self) -> Seq<u8> {
        self.bytes@
    }
}

impl SecretDocument {
    /// Takes ownership of the document.
    pub fn new(bytes: Vec<u8>) -> (res: Self)
        ensures
            res@ == bytes@,
    {
        SecretDocument { bytes }
    }

    /// The bytes of the document.
    pub fn as_slice(&self) -> (res: &[u8])
        ensures
            res@ == self@,
    {
        self.bytes.as_slice()
    }
}

impl Drop for SecretDocument {
    /// Wipes the document.
    fn drop(&mut self)
        ensures
            final(self)@.len() == 0,
        opens_invariants none
        no_unwind
    {
        wipe_document(&mut self.bytes);
    }
}

} // verus!
