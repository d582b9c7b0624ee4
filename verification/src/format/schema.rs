//! Wire messages, as plain values.
//!
//! These are the messages that travel between parties. Turning them into
//! bytes and back is the codec's work and happens outside this crate.

use vstd::prelude::*;

verus! {

/// The signature algorithms that the wire format knows.
#[derive(Clone, Copy, Debug, PartialEq, Eq, Hash, Structural)]
pub enum Algorithm {
    Ed25519,
    P256,
}

impl Algorithm {
    /// The number that stands for the algorithm on the wire.
    pub open spec fn spec_tag(self) -> i32 {
        match self {
            Algorithm::Ed25519 => 0i32,
            Algorithm::P256 => 1i32,
        }
    }

    /// The number that stands for the algorithm on the wire.
    #[verifier::when_used_as_spec(spec_tag)]
    pub fn tag(self) -> (res: i32)
        ensures
            res == self.spec_tag(),
    {
        match self {
            Algorithm::Ed25519 => 0i32,
            Algorithm::P256 => 1i32,
        }
    }

    /// The algorithm that a wire number stands for, if it stands for one.
    pub open spec fn spec_from_tag(tag: i32) -> Option<Algorithm> {
        if tag == 0 {
            Some(Algorithm::Ed25519)
        } else if tag == 1 {
            Some(Algorithm::P256)
        } else {
            None
        }
    }

    /// The algorithm that a wire number stands for, if it stands for one.
    #[verifier::when_used_as_spec(spec_from_tag)]
    pub fn from_tag(tag: i32) -> (res: Option<Algorithm>)
        ensures
            res == Self::spec_from_tag(tag),
    {
        if tag == 0 {
            Some(Algorithm::Ed25519)
        } else if tag == 1 {
            Some(Algorithm::P256)
        } else {
            None
        }
    }

    /// The four bytes that stand for the algorithm in signed material: the
    /// wire number as a little endian 32 bit integer.
    pub open spec fn spec_tag_bytes(self) -> Seq<u8> {
        seq![self.spec_tag() as u8, 0u8, 0u8, 0u8]
    }

    /// Two algorithms with the same wire number are the same algorithm.
    pub proof fn lemma_tag_injective(a: Algorithm, b: Algorithm)
        requires
            a.spec_tag() == b.spec_tag(),
        ensures
            a == b,
    {
    }

    /// Reading back the wire number of an algorithm gives that algorithm.
    pub proof fn lemma_tag_round_trip(a: Algorithm)
        ensures
            Self::spec_from_tag(a.spec_tag()) == Some(a),
    {
    }
}

/// A public key on the wire: the algorithm's number and the key's bytes.
#[derive(Clone, Debug, PartialEq, Eq)]
pub struct PublicKey {
    pub algorithm: i32,
    pub key: Vec<u8>,
}

/// The signature of a party outside the chain, with the party's key.
#[derive(Clone, Debug, PartialEq, Eq)]
pub struct ExternalSignature {
    pub signature: Vec<u8>,
    pub public_key: PublicKey,
}

/// What a third party is sent when it is asked for a block.
#[derive(Clone, Debug, PartialEq, Eq)]
pub struct ThirdPartyBlockRequest {
    pub previous_key: PublicKey,
    pub public_keys: Vec<PublicKey>,
}

/// What a third party answers: the block it wrote and its signature.
#[derive(Clone, Debug, PartialEq, Eq)]
pub struct ThirdPartyBlockContents {
    pub payload: Vec<u8>,
    pub external_signature: ExternalSignature,
}

/// What an origin tag holds: the mark of the authorizer, or the number of a
/// block.
#[derive(Clone, Copy, Debug, PartialEq, Eq, Structural)]
pub enum Content {
    Authorizer(bool),
    Origin(u32),
}

/// One member of the provenance of a fact.
#[derive(Clone, Copy, Debug, PartialEq, Eq, Structural)]
pub struct Origin {
    pub content: Option<Content>,
}

/// A fact on the wire: the numbers of the symbols it names, and the rest
/// of it as the Datalog layer wrote it.
#[derive(Clone, Debug, PartialEq, Eq)]
pub struct Fact {
    pub symbols: Vec<u64>,
    pub body: Vec<u8>,
}

/// A policy on the wire: the numbers of the symbols it names, and the rest
/// of it as the Datalog layer wrote it.
#[derive(Clone, Debug, PartialEq, Eq)]
pub struct Policy {
    pub symbols: Vec<u64>,
    pub body: Vec<u8>,
}

/// A block on the wire: the symbols and the public keys it brings, its
/// facts, and the signature of the outside party where one wrote it.
#[derive(Clone, Debug, PartialEq, Eq)]
pub struct Block {
    pub symbols: Vec<String>,
    pub facts: Vec<Fact>,
    pub public_keys: Vec<PublicKey>,
    pub external_signature: Option<ExternalSignature>,
}

/// The facts that share one provenance.
#[derive(Clone, Debug, PartialEq, Eq)]
pub struct GeneratedFacts {
    pub origins: Vec<Origin>,
    pub facts: Vec<Fact>,
}

/// An external key and the blocks that it signed.
#[derive(Clone, Debug, PartialEq, Eq)]
pub struct KeyMap {
    pub key: PublicKey,
    pub block_ids: Vec<u32>,
}

/// The whole state of an authorizer.
#[derive(Clone, Debug, PartialEq, Eq)]
pub struct AuthorizerSnapshot {
    pub version: Option<u32>,
    pub symbols: Vec<String>,
    pub blocks: Vec<Block>,
    pub authorizer_block: Block,
    pub generated_facts: Vec<GeneratedFacts>,
    pub policies: Vec<Policy>,
    pub public_key_map: Vec<KeyMap>,
}

} // verus!
