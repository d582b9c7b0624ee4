//! Third-party blocks: how a party outside the chain writes and signs one
//! block of a token without ever holding a key of the chain.
//!
//! The holder of the token sends a request, which names the key that the
//! new block has to follow and the public keys known so far. The third
//! party fills in the block and answers with the block and its signature
//! over it. Nothing here checks the answer: that is the work of the chain
//! check, before the block is joined to the token.

use vstd::prelude::*;
use crate::builder::{BlockBuilder, Fact, ItemView};
use crate::crypto::chain::{
    block_verdict, chain_valid, external_signed_material, first_failure_at, key_at,
    lemma_extend_valid, signed_material, BlockView,
};
use crate::crypto::{signature_length, KeyView, PrivateKey, PublicKey, Verdict};
use crate::datalog::symbol::SymbolTable;
use crate::error;
use crate::error::{Format, Token};
use crate::format::schema;
use crate::format::schema::Algorithm;
use crate::interning::interned_all;
use crate::token::block::{
    all_keys_decode, decoded_keys, is_first_unreadable_key, token_block_to_proto_block,
    wire_key_views,
};
use crate::token::public_keys::PublicKeys;

verus! {

/// A request for a third-party block.
#[derive(Debug)]
pub struct Request {
    previous_key: PublicKey,
    public_keys: PublicKeys,
    builder: BlockBuilder,
}

/// What a request holds.
pub struct RequestView {
    pub previous_key: KeyView,
    pub public_keys: Seq<KeyView>,
    pub facts: Seq<ItemView>,
}

impl View for Request {
    type V = RequestView;

    closed spec fn view(&self) -> RequestView {
        RequestView {
            previous_key: self.previous_key@,
            public_keys: self.public_keys@,
            facts: self.builder@,
        }
    }
}

/// Appends the fixed algorithm number of the chain link and the bytes of
/// a key to a payload.
fn external_material(payload: &Vec<u8>, previous_key: &Vec<u8>) -> (res: Vec<u8>)
    ensures
        res@ == external_signed_material(payload@, previous_key@),
{
    let mut out: Vec<u8> = Vec::new();
    let mut i: usize = 0;
    while i < payload.len()
        invariant
            i <= payload@.len(),
            out@ == payload@.take(i as int),
        decreases payload@.len() - i,
    {
        out.push(payload[i]);
        i += 1;
        assert(payload@.take(i as int) =~= payload@.take(i - 1).push(payload@[i - 1]));
    }
    assert(payload@.take(payload@.len() as int) =~= payload@);
    let number: i32 = Algorithm::Ed25519.tag();
    out.push(number as u8);
    out.push(0u8);
    out.push(0u8);
    out.push(0u8);
    assert(out@ =~= payload@ + Algorithm::Ed25519.spec_tag_bytes());
    let mut j: usize = 0;
    while j < previous_key.len()
        invariant
            j <= previous_key@.len(),
            out@ == payload@ + Algorithm::Ed25519.spec_tag_bytes() + previous_key@.take(j as int),
        decreases previous_key@.len() - j,
    {
        out.push(previous_key[j]);
        j += 1;
        assert(previous_key@.take(j as int) =~= previous_key@.take(j - 1).push(
            previous_key@[j - 1],
        ));
    }
    assert(previous_key@.take(previous_key@.len() as int) =~= previous_key@);
    out
}

/// Whether `f` is the error of a request with a key that does not read: a
/// deserialization error, which for a key of no known algorithm says which
/// number the message gave.
pub open spec fn is_embedded_key_error(algorithm: i32, f: Format) -> bool {
    f matches Format::DeserializationError(text) && (Algorithm::spec_from_tag(algorithm) is None
        ==> text@ == crate::crypto::ed25519::PublicKey::unexpected_algorithm_text(algorithm))
}

/// Whether `f` is the error of a request for the first key of its table
/// that does not read.
pub open spec fn is_embedded_keys_error(keys: Seq<(i32, Seq<u8>)>, f: Format) -> bool {
    exists|i: int|
        #![trigger is_first_unreadable_key(keys, i)]
        is_first_unreadable_key(keys, i) && is_embedded_key_error(keys[i].0, f)
}

/// Turns the error of a key that does not read into the error of the
/// request that holds the key: a deserialization error with the same text.
fn embedded_key_error(e: Format) -> (res: Format)
    requires
        e is DeserializationError || e is InvalidKey,
    ensures
        match e {
            Format::DeserializationError(text) => res == e,
            Format::InvalidKey(text) => res == Format::DeserializationError(text),
            _ => true,
        },
{
    match e {
        Format::InvalidKey(text) => Format::DeserializationError(text),
        other => other,
    }
}

impl Request {
    /// Reads a request from its wire message. The key to follow and every
    /// key of the table must be keys of a known algorithm; a key that is not
    /// makes the request unreadable, which is a deserialization error. A key
    /// that the message names twice stands in the table once.
    pub fn deserialize(data: &schema::ThirdPartyBlockRequest) -> (res: Result<Self, Token>)
        ensures
            res is Ok <==> PublicKey::decoded(data.previous_key.algorithm, data.previous_key.key@)
                is Some && all_keys_decode(wire_key_views(data.public_keys@)),
            res matches Ok(request) ==> request@ == (RequestView {
                previous_key: PublicKey::decoded(
                    data.previous_key.algorithm,
                    data.previous_key.key@,
                ).unwrap(),
                public_keys: interned_all(
                    Seq::<KeyView>::empty(),
                    decoded_keys(wire_key_views(data.public_keys@)),
                ),
                facts: Seq::<ItemView>::empty(),
            }),
            res matches Err(e) ==> e matches Token::Format(Format::DeserializationError(_)),
            res matches Err(e) ==> (e matches Token::Format(f) && (if PublicKey::decoded(
                data.previous_key.algorithm,
                data.previous_key.key@,
            ) is None {
                is_embedded_key_error(data.previous_key.algorithm, f)
            } else {
                is_embedded_keys_error(wire_key_views(data.public_keys@), f)
            })),
    {
        let previous_key = match PublicKey::from_proto(&data.previous_key) {
            Ok(key) => key,
            Err(e) => {
                return Err(Token::Format(embedded_key_error(e)));
            },
        };
        let ghost wire = wire_key_views(data.public_keys@);
        let mut public_keys = PublicKeys::new();
        let mut i: usize = 0;
        proof {
            assert(decoded_keys(wire.take(0)) =~= Seq::<KeyView>::empty());
        }
        while i < data.public_keys.len()
            invariant
                i <= data.public_keys@.len(),
                wire == wire_key_views(data.public_keys@),
                PublicKey::decoded(data.previous_key.algorithm, data.previous_key.key@) is Some,
                all_keys_decode(wire.take(i as int)),
                public_keys@ == interned_all(
                    Seq::<KeyView>::empty(),
                    decoded_keys(wire.take(i as int)),
                ),
            decreases data.public_keys@.len() - i,
        {
            let key = match PublicKey::from_proto(&data.public_keys[i]) {
                Ok(key) => key,
                Err(e) => {
                    assert(PublicKey::decoded(wire[i as int].0, wire[i as int].1) is None);
                    assert(is_first_unreadable_key(wire, i as int));
                    return Err(Token::Format(embedded_key_error(e)));
                },
            };
            let ghost view = key@;
            let _ = public_keys.insert(&key);
            i += 1;
            proof {
                let taken = wire.take(i as int);
                assert forall|k: int| 0 <= k < taken.len() implies PublicKey::decoded(
                    (#[trigger] taken[k]).0,
                    taken[k].1,
                ) is Some by {
                    if k < i - 1 {
                        assert(wire.take(i - 1)[k] == taken[k]);
                    }
                }
                assert(decoded_keys(taken).drop_last() =~= decoded_keys(wire.take(i - 1)));
                assert(decoded_keys(taken).last() == view);
            }
        }
        assert(wire.take(wire.len() as int) =~= wire);
        Ok(Request { previous_key, public_keys, builder: BlockBuilder::new() })
    }

    /// The key that the new block has to follow.
    pub fn previous_key(&self) -> (res: &PublicKey)
        ensures
            res@ == self@.previous_key,
    {
        &self.previous_key
    }

    /// The public keys that the holder of the token knows.
    pub fn public_keys(&self) -> (res: &PublicKeys)
        ensures
            res@ == self@.public_keys,
    {
        &self.public_keys
    }

    /// Puts a fact into the block that is being written.
    pub fn add_fact(&mut self, fact: Fact)
        ensures
            final(self)@ == (RequestView { facts: old(self)@.facts.push(fact@), ..old(self)@ }),
    {
        self.builder.add_fact(fact);
    }

    /// The block that was written so far, in its wire form. Its symbol
    /// space starts fresh, and the public keys of the request are known in
    /// it. The bytes of this block are the payload that the answer signs.
    pub fn build_block(&self) -> (res: schema::Block)
        ensures
            res@.symbols == interned_all(
                Seq::<crate::datalog::symbol::Name>::empty(),
                crate::builder::all_names(self@.facts),
            ),
            crate::builder::are_wires_of(res@.symbols, self@.facts, res@.facts),
            res@.public_keys == Seq::<(i32, Seq<u8>)>::empty(),
            res@.external_signature is None,
    {
        let mut symbols = SymbolTable::new();
        symbols.public_keys.extend(&self.public_keys);
        let block = self.builder.clone().build(symbols);
        assert(block@.symbols =~= interned_all(
            Seq::<crate::datalog::symbol::Name>::empty(),
            crate::builder::all_names(self@.facts),
        ));
        let wire = token_block_to_proto_block(&block);
        assert(wire@.public_keys =~= Seq::<(i32, Seq<u8>)>::empty());
        wire
    }

    /// Answers the request: signs the payload, the fixed algorithm number
    /// of the chain link and the bytes of the key to follow with the third
    /// party's private key. The answer holds the payload as it was given,
    /// the signature, which has the length that the algorithm fixes, and the
    /// third party's public key, which reads back from its message.
    pub fn create_response(self, private_key: PrivateKey, payload: Vec<u8>) -> (res: Result<
        schema::ThirdPartyBlockContents,
        Token,
    >)
        ensures
            match private_key.signature_of(
                external_signed_material(payload@, self@.previous_key.bytes),
            ) {
                Some(signature) => res matches Ok(contents) && contents.payload@ == payload@
                    && contents.external_signature.signature@ == signature
                    && contents.external_signature.public_key.algorithm
                    == private_key.public_view().algorithm.spec_tag()
                    && contents.external_signature.public_key.key@
                    == private_key.public_view().bytes
                    && contents.external_signature.signature@.len() == signature_length(
                    private_key.spec_algorithm(),
                ) && PublicKey::decoded(
                    contents.external_signature.public_key.algorithm,
                    contents.external_signature.public_key.key@,
                ) == Some(private_key.public_view()),
                None => res matches Err(
                    Token::Format(
                        Format::Signature(error::Signature::InvalidSignatureGeneration(_)),
                    ),
                ),
            },
    {
        let previous = self.previous_key.to_bytes();
        let to_sign = external_material(&payload, &previous);
        let signature = match private_key.sign(to_sign.as_slice()) {
            Ok(signature) => signature,
            Err(e) => {
                return Err(Token::Format(e));
            },
        };
        let public_key = private_key.public();
        Ok(
            schema::ThirdPartyBlockContents {
                payload,
                external_signature: schema::ExternalSignature {
                    signature: vstd::slice::slice_to_vec(signature.to_bytes()),
                    public_key: public_key.to_proto(),
                },
            },
        )
    }
}

impl core::ops::Deref for Request {
    type Target = BlockBuilder;

    /// The block that is being written.
    fn deref(&self) -> (res: &BlockBuilder)
        ensures
            res@ == self@.facts,
    {
        &self.builder
    }
}

impl core::ops::DerefMut for Request {
    /// The block that is being written, for writing into it.
    fn deref_mut(&mut self) -> (res: &mut BlockBuilder)
        ensures
            res@ == old(self)@.facts,
            final(self)@ == (RequestView { facts: final(res)@, ..old(self)@ }),
    {
        &mut self.builder
    }
}

/// The block that joins an answer to the chain: the payload and the outside
/// party's signature and key from the answer, with the next key and the
/// signature that the holder of the chain adds.
pub open spec fn spliced_block(
    payload: Seq<u8>,
    next_key: KeyView,
    signature: Seq<u8>,
    external_key: KeyView,
    external_signature: Seq<u8>,
) -> BlockView {
    BlockView {
        data: payload,
        next_key,
        signature,
        external_signature: Some((external_key, external_signature)),
    }
}

/// The answer to a request signs exactly what the chain check of an
/// outside party's block covers: the payload and the key that the block
/// follows. So a block made of the answer passes the check at the end of a
/// valid chain whenever the backend accepts the two signatures for the
/// bytes they were made for, and the chain with the block at its end is
/// valid.
pub proof fn lemma_response_splices(
    root: KeyView,
    blocks: Seq<BlockView>,
    payload: Seq<u8>,
    next_key: KeyView,
    signature: Seq<u8>,
    external_key: KeyView,
    external_signature: Seq<u8>,
)
    requires
        chain_valid(root, blocks),
        PublicKey::signature_verdict(
            key_at(root, blocks, blocks.len() as int),
            signed_material(payload, next_key),
            signature,
        ) == Verdict::Valid,
        PublicKey::signature_verdict(
            external_key,
            external_signed_material(payload, key_at(root, blocks, blocks.len() as int).bytes),
            external_signature,
        ) == Verdict::Valid,
    ensures
        chain_valid(
            root,
            blocks.push(
                spliced_block(payload, next_key, signature, external_key, external_signature),
            ),
        ),
{
    let block = spliced_block(payload, next_key, signature, external_key, external_signature);
    let longer = blocks.push(block);
    assert(longer.take(blocks.len() as int) =~= blocks);
    assert(key_at(root, longer, blocks.len() as int) == key_at(root, blocks, blocks.len() as int));
    lemma_extend_valid(root, longer, blocks.len() as int);
    assert(longer.take(blocks.len() as int + 1) =~= longer);
}

/// A block made of an answer fails the check, and the chain with it at its
/// end is invalid from that block on, whenever the backend does not accept
/// the outside party's signature for the payload and the key that the
/// block carries: after the payload was tampered with, or another public
/// key was put in the place of the signer's.
pub proof fn lemma_tampered_response_fails(
    root: KeyView,
    blocks: Seq<BlockView>,
    payload: Seq<u8>,
    next_key: KeyView,
    signature: Seq<u8>,
    external_key: KeyView,
    external_signature: Seq<u8>,
)
    requires
        chain_valid(root, blocks),
        PublicKey::signature_verdict(
            external_key,
            external_signed_material(payload, key_at(root, blocks, blocks.len() as int).bytes),
            external_signature,
        ) != Verdict::Valid,
    ensures
        !chain_valid(
            root,
            blocks.push(
                spliced_block(payload, next_key, signature, external_key, external_signature),
            ),
        ),
        first_failure_at(
            root,
            blocks.push(
                spliced_block(payload, next_key, signature, external_key, external_signature),
            ),
            blocks.len() as int,
        ),
{
    let block = spliced_block(payload, next_key, signature, external_key, external_signature);
    let longer = blocks.push(block);
    assert(longer.take(blocks.len() as int) =~= blocks);
    assert(key_at(root, longer, blocks.len() as int) == key_at(root, blocks, blocks.len() as int));
    assert(block_verdict(key_at(root, longer, blocks.len() as int), longer[blocks.len() as int])
        != Verdict::Valid);
}

} // verus!
