//! The signature chain that links the blocks of a token.
//!
//! The signature of a block covers the block's payload and the key that has
//! to sign the block after it. A chain is checked from a root key: the first
//! block against the root key, each later block against the key that the
//! block before it names.

use vstd::prelude::*;
use crate::crypto::{
    signature_length, verdict_matches, KeyPair, KeyView, PublicKey, Signature, Verdict,
};
use crate::error;
use crate::error::Format;
use crate::format::schema::Algorithm;

verus! {

/// The signature of a party outside the chain over a block, with the
/// party's public key.
#[derive(Debug, Clone)]
pub struct ExternalSignature {
    pub public_key: PublicKey,
    pub signature: Signature,
}

/// A block of the chain: its payload, the key that has to sign the next
/// block, its signature, and the signature of the outside party where one
/// wrote the block.
#[derive(Debug, Clone)]
pub struct Block {
    pub data: Vec<u8>,
    pub next_key: PublicKey,
    pub signature: Signature,
    pub external_signature: Option<ExternalSignature>,
}

/// What a block is.
pub struct BlockView {
    pub data: Seq<u8>,
    pub next_key: KeyView,
    pub signature: Seq<u8>,
    pub external_signature: Option<(KeyView, Seq<u8>)>,
}

impl View for Block {
    type V = BlockView;

    open spec fn view(&self) -> BlockView {
        BlockView {
            data: self.data@,
            next_key: self.next_key@,
            signature: self.signature@,
            external_signature: match self.external_signature {
                Some(external) => Some((external.public_key@, external.signature@)),
                None => None,
            },
        }
    }
}

/// The views of the blocks of a chain.
pub open spec fn block_views(blocks: Seq<Block>) -> Seq<BlockView> {
    Seq::new(blocks.len(), |i: int| blocks[i]@)
}

/// The bytes that the signature of a block covers: the payload, then the
/// algorithm of the next key as four bytes, then the bytes of the next key.
pub open spec fn signed_material(data: Seq<u8>, next_key: KeyView) -> Seq<u8> {
    data + next_key.algorithm.spec_tag_bytes() + next_key.bytes
}

/// The bytes that the signature of an outside party covers: the payload,
/// then the fixed algorithm number of the chain link as four bytes, then the
/// bytes of the key that the block follows.
pub open spec fn external_signed_material(data: Seq<u8>, previous_key: Seq<u8>) -> Seq<u8> {
    data + Algorithm::Ed25519.spec_tag_bytes() + previous_key
}

/// What checking one block against the key `current` comes to: the block's
/// own signature is checked first, then that of the outside party, if any.
pub open spec fn block_verdict(current: KeyView, block: BlockView) -> Verdict {
    let own = PublicKey::signature_verdict(
        current,
        signed_material(block.data, block.next_key),
        block.signature,
    );
    match block.external_signature {
        Some((key, signature)) if own == Verdict::Valid => PublicKey::signature_verdict(
            key,
            external_signed_material(block.data, current.bytes),
            signature,
        ),
        _ => own,
    }
}

/// The key that block `i` is checked against: the root key for the first
/// block, and for every other block the key that the block before it names.
pub open spec fn key_at(root: KeyView, blocks: Seq<BlockView>, i: int) -> KeyView {
    if i <= 0 {
        root
    } else {
        blocks[i - 1].next_key
    }
}

/// Whether every block of the chain passes its check.
pub open spec fn chain_valid(root: KeyView, blocks: Seq<BlockView>) -> bool {
    forall|i: int|
        0 <= i < blocks.len() ==> #[trigger] block_verdict(key_at(root, blocks, i), blocks[i])
            == Verdict::Valid
}

/// Whether block `i` is the first that fails its check.
pub open spec fn first_failure_at(root: KeyView, blocks: Seq<BlockView>, i: int) -> bool {
    &&& 0 <= i < blocks.len()
    &&& block_verdict(key_at(root, blocks, i), blocks[i]) != Verdict::Valid
    &&& chain_valid(root, blocks.take(i))
}

/// Appends the algorithm and the bytes of a key to a payload.
fn material(data: &[u8], tag: Algorithm, key: &Vec<u8>) -> (res: Vec<u8>)
    ensures
        res@ == data@ + tag.spec_tag_bytes() + key@,
{
    let mut out: Vec<u8> = Vec::new();
    let mut i: usize = 0;
    while i < data.len()
        invariant
            i <= data@.len(),
            out@ == data@.take(i as int),
        decreases data@.len() - i,
    {
        out.push(data[i]);
        i += 1;
        assert(data@.take(i as int) == data@.take(i - 1).push(data@[i - 1]));
    }
    assert(data@.take(data@.len() as int) == data@);
    let number: i32 = tag.tag();
    out.push(number as u8);
    out.push(0u8);
    out.push(0u8);
    out.push(0u8);
    assert(out@ == data@ + tag.spec_tag_bytes());
    let mut j: usize = 0;
    while j < key.len()
        invariant
            j <= key@.len(),
            out@ == data@ + tag.spec_tag_bytes() + key@.take(j as int),
        decreases key@.len() - j,
    {
        out.push(key[j]);
        j += 1;
        assert(key@.take(j as int) == key@.take(j - 1).push(key@[j - 1]));
    }
    assert(key@.take(key@.len() as int) == key@);
    out
}

/// Signs a block: the payload `message` and the key that has to sign the
/// next block. The signature has the length that the algorithm of the
/// signing key fixes.
pub fn sign(keypair: &KeyPair, next_key: &PublicKey, message: &[u8]) -> (res: Result<
    Signature,
    Format,
>)
    ensures
        match keypair.signature_of(signed_material(message@, next_key@)) {
            Some(s) => res matches Ok(signature) && signature@ == s && signature@.len()
                == signature_length(keypair.public_view().algorithm),
            None => res matches Err(
                Format::Signature(error::Signature::InvalidSignatureGeneration(_)),
            ),
        },
{
    let bytes = next_key.to_bytes();
    let to_sign = material(message, next_key.algorithm(), &bytes);
    keypair.sign(to_sign.as_slice())
}

/// Checks one block against the key that has to have signed it.
pub fn verify_block_signature(block: &Block, public_key: &PublicKey) -> (res: Result<(), Format>)
    ensures
        verdict_matches(block_verdict(public_key@, block@), res),
{
    let next = block.next_key.to_bytes();
    let to_verify = material(block.data.as_slice(), block.next_key.algorithm(), &next);
    match public_key.verify_signature(to_verify.as_slice(), &block.signature) {
        Ok(()) => {},
        Err(e) => {
            return Err(e);
        },
    }
    match &block.external_signature {
        Some(external) => {
            let previous = public_key.to_bytes();
            let to_verify = material(block.data.as_slice(), Algorithm::Ed25519, &previous);
            external.public_key.verify_signature(to_verify.as_slice(), &external.signature)
        },
        None => Ok(()),
    }
}

/// Checks a chain of blocks from a root key. The check stops at the first
/// block that fails, with the error of that block.
pub fn verify_chain(root: &PublicKey, blocks: &Vec<Block>) -> (res: Result<(), Format>)
    ensures
        res is Ok <==> chain_valid(root@, block_views(blocks@)),
        res is Err ==> exists|i: int|
            #![trigger first_failure_at(root@, block_views(blocks@), i)]
            first_failure_at(root@, block_views(blocks@), i) && verdict_matches(
                block_verdict(key_at(root@, block_views(blocks@), i), block_views(blocks@)[i]),
                res,
            ),
{
    let ghost views = block_views(blocks@);
    let mut i: usize = 0;
    while i < blocks.len()
        invariant
            i <= blocks@.len(),
            views == block_views(blocks@),
            chain_valid(root@, views.take(i as int)),
        decreases blocks@.len() - i,
    {
        let res = if i == 0 {
            verify_block_signature(&blocks[i], root)
        } else {
            verify_block_signature(&blocks[i], &blocks[i - 1].next_key)
        };
        proof {
            assert(views[i as int] == blocks@[i as int]@);
            if i > 0 {
                assert(views[i - 1] == blocks@[i - 1]@);
            }
        }
        match res {
            Ok(()) => {},
            Err(e) => {
                proof {
                    assert(first_failure_at(root@, views, i as int));
                    lemma_failure_breaks_chain(root@, views, i as int);
                }
                return Err(e);
            },
        }
        proof {
            lemma_extend_valid(root@, views, i as int);
        }
        i += 1;
    }
    assert(views.take(views.len() as int) == views);
    Ok(())
}

/// A valid prefix followed by a block that passes is a valid prefix.
pub proof fn lemma_extend_valid(root: KeyView, blocks: Seq<BlockView>, i: int)
    requires
        0 <= i < blocks.len(),
        chain_valid(root, blocks.take(i)),
        block_verdict(key_at(root, blocks, i), blocks[i]) == Verdict::Valid,
    ensures
        chain_valid(root, blocks.take(i + 1)),
{
    let longer = blocks.take(i + 1);
    assert forall|j: int| 0 <= j < longer.len() implies #[trigger] block_verdict(
        key_at(root, longer, j),
        longer[j],
    ) == Verdict::Valid by {
        if j < i {
            let shorter = blocks.take(i);
            assert(block_verdict(key_at(root, shorter, j), shorter[j]) == Verdict::Valid);
            assert(key_at(root, shorter, j) == key_at(root, longer, j));
        } else {
            assert(key_at(root, longer, j) == key_at(root, blocks, i));
        }
    }
}

/// A chain with a block that fails its check is not valid.
pub proof fn lemma_failure_breaks_chain(root: KeyView, blocks: Seq<BlockView>, i: int)
    requires
        0 <= i < blocks.len(),
        block_verdict(key_at(root, blocks, i), blocks[i]) != Verdict::Valid,
    ensures
        !chain_valid(root, blocks),
{
}

/// Every prefix of a valid chain is a valid chain: what comes after a block
/// has no part in its check.
pub proof fn lemma_prefix_valid(root: KeyView, blocks: Seq<BlockView>, n: int)
    requires
        chain_valid(root, blocks),
        0 <= n <= blocks.len(),
    ensures
        chain_valid(root, blocks.take(n)),
{
    let prefix = blocks.take(n);
    assert forall|j: int| 0 <= j < prefix.len() implies #[trigger] block_verdict(
        key_at(root, prefix, j),
        prefix[j],
    ) == Verdict::Valid by {
        assert(block_verdict(key_at(root, blocks, j), blocks[j]) == Verdict::Valid);
        assert(key_at(root, prefix, j) == key_at(root, blocks, j));
    }
}

/// Where a chain is disturbed from block `i` on, by putting blocks in
/// another order, by repeating one or by leaving one out, the block that
/// now stands at `i` is checked against the key that the undisturbed blocks
/// before it name, never against a key of its own choice. If it fails that
/// check, the disturbed chain is invalid, and `i` is where it first fails.
pub proof fn lemma_disturbance_detected(
    root: KeyView,
    blocks: Seq<BlockView>,
    disturbed: Seq<BlockView>,
    i: int,
)
    requires
        chain_valid(root, blocks),
        0 <= i <= blocks.len(),
        i < disturbed.len(),
        disturbed.take(i) == blocks.take(i),
        block_verdict(key_at(root, blocks, i), disturbed[i]) != Verdict::Valid,
    ensures
        key_at(root, disturbed, i) == key_at(root, blocks, i),
        !chain_valid(root, disturbed),
        first_failure_at(root, disturbed, i),
{
    lemma_prefix_valid(root, blocks, i);
    if i > 0 {
        assert(disturbed.take(i)[i - 1] == disturbed[i - 1]);
        assert(blocks.take(i)[i - 1] == blocks[i - 1]);
    }
    assert(key_at(root, disturbed, i) == key_at(root, blocks, i));
}

/// Changing the payload of block `i` changes what its own check covers and
/// nothing else: every other block is checked against the same key and
/// comes to the same verdict as before.
pub proof fn lemma_payload_change_is_local(
    root: KeyView,
    blocks: Seq<BlockView>,
    i: int,
    data: Seq<u8>,
    j: int,
)
    requires
        0 <= i < blocks.len(),
        0 <= j < blocks.len(),
        j != i,
    ensures
        ({
            let changed = blocks.update(i, BlockView { data, ..blocks[i] });
            block_verdict(key_at(root, changed, j), changed[j]) == block_verdict(
                key_at(root, blocks, j),
                blocks[j],
            )
        }),
{
}

} // verus!
