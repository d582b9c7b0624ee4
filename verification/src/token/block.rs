//! A block of a token, as the authorizer holds it.

use vstd::prelude::*;
use vstd::slice::slice_to_vec;
use crate::builder::{wire_fact_views, WireView};
use crate::crypto::{KeyView, PublicKey};
use crate::datalog::symbol::{names_of, Name};
use crate::error::Format;
use crate::format::schema;
use crate::token::public_keys::{key_views, PublicKeys};

verus! {

/// What a block is.
pub struct BlockView {
    pub symbols: Seq<Name>,
    pub facts: Seq<WireView>,
    pub public_keys: Seq<KeyView>,
    pub external_key: Option<KeyView>,
    pub external_signature: Option<(Seq<u8>, i32, Seq<u8>)>,
}

/// A block: the symbols and the public keys that it brings, its facts
/// written with symbol numbers, and, for a block that an outside party
/// wrote, that party's key.
#[derive(Debug)]
pub struct Block {
    pub symbols: Vec<String>,
    pub facts: Vec<schema::Fact>,
    pub public_keys: PublicKeys,
    pub external_key: Option<PublicKey>,
    pub external_signature: Option<schema::ExternalSignature>,
}

/// What a signature on the wire holds: its bytes, and the number and the
/// bytes of the signer's key.
pub open spec fn external_signature_view(signature: Option<schema::ExternalSignature>) -> Option<
    (Seq<u8>, i32, Seq<u8>),
> {
    match signature {
        Some(s) => Some((s.signature@, s.public_key.algorithm, s.public_key.key@)),
        None => None,
    }
}

/// The view of a key, where there is one.
pub open spec fn optional_key_view(key: Option<PublicKey>) -> Option<KeyView> {
    match key {
        Some(k) => Some(k@),
        None => None,
    }
}

impl View for Block {
    type V = BlockView;

    open spec fn view(&self) -> BlockView {
        BlockView {
            symbols: names_of(self.symbols@),
            facts: wire_fact_views(self.facts@),
            public_keys: self.public_keys@,
            external_key: optional_key_view(self.external_key),
            external_signature: external_signature_view(self.external_signature),
        }
    }
}

/// What a block on the wire holds.
pub struct WireBlockView {
    pub symbols: Seq<Name>,
    pub facts: Seq<WireView>,
    pub public_keys: Seq<(i32, Seq<u8>)>,
    pub external_signature: Option<(Seq<u8>, i32, Seq<u8>)>,
}

/// The numbers and bytes of a list of keys on the wire.
pub open spec fn wire_key_views(keys: Seq<schema::PublicKey>) -> Seq<(i32, Seq<u8>)> {
    Seq::new(keys.len(), |i: int| (keys[i].algorithm, keys[i].key@))
}

impl View for schema::Block {
    type V = WireBlockView;

    open spec fn view(&self) -> WireBlockView {
        WireBlockView {
            symbols: names_of(self.symbols@),
            facts: wire_fact_views(self.facts@),
            public_keys: wire_key_views(self.public_keys@),
            external_signature: external_signature_view(self.external_signature),
        }
    }
}

/// Whether every key of the list is one that reads.
pub open spec fn all_keys_decode(keys: Seq<(i32, Seq<u8>)>) -> bool {
    forall|i: int|
        0 <= i < keys.len() ==> PublicKey::decoded((#[trigger] keys[i]).0, keys[i].1) is Some
}

/// Whether key `i` of the list is the first that does not read.
pub open spec fn is_first_unreadable_key(keys: Seq<(i32, Seq<u8>)>, i: int) -> bool {
    &&& 0 <= i < keys.len()
    &&& PublicKey::decoded(keys[i].0, keys[i].1) is None
    &&& all_keys_decode(keys.take(i))
}

/// Whether `e` is the error of the first key of the list that does not
/// read.
pub open spec fn is_keys_error(keys: Seq<(i32, Seq<u8>)>, e: Format) -> bool {
    exists|i: int|
        #![trigger is_first_unreadable_key(keys, i)]
        is_first_unreadable_key(keys, i) && PublicKey::is_key_error(keys[i].0, e)
}

/// The keys that the list holds.
pub open spec fn decoded_keys(keys: Seq<(i32, Seq<u8>)>) -> Seq<KeyView> {
    Seq::new(keys.len(), |i: int| PublicKey::decoded(keys[i].0, keys[i].1).unwrap())
}

/// The wire messages of a list of keys.
pub open spec fn keys_on_wire(keys: Seq<KeyView>) -> Seq<(i32, Seq<u8>)> {
    Seq::new(keys.len(), |i: int| (keys[i].algorithm.spec_tag(), keys[i].bytes))
}

/// A copy of a list of strings.
pub fn clone_strings(strings: &Vec<String>) -> (res: Vec<String>)
    ensures
        names_of(res@) == names_of(strings@),
{
    let mut out: Vec<String> = Vec::new();
    let mut i: usize = 0;
    while i < strings.len()
        invariant
            i <= strings@.len(),
            names_of(out@) == names_of(strings@).take(i as int),
        decreases strings@.len() - i,
    {
        let ghost before = names_of(out@);
        let s = strings[i].clone();
        out.push(s);
        assert(names_of(out@) =~= before.push(names_of(strings@)[i as int]));
        i += 1;
        assert(names_of(strings@).take(i as int) =~= names_of(strings@).take(i - 1).push(
            names_of(strings@)[i - 1],
        ));
    }
    assert(names_of(strings@).take(strings@.len() as int) =~= names_of(strings@));
    out
}

/// A copy of a list of facts on the wire.
pub fn clone_wire_facts(facts: &Vec<schema::Fact>) -> (res: Vec<schema::Fact>)
    ensures
        wire_fact_views(res@) == wire_fact_views(facts@),
{
    let mut out: Vec<schema::Fact> = Vec::new();
    let mut i: usize = 0;
    while i < facts.len()
        invariant
            i <= facts@.len(),
            wire_fact_views(out@) == wire_fact_views(facts@).take(i as int),
        decreases facts@.len() - i,
    {
        let ghost before = wire_fact_views(out@);
        let fact = schema::Fact {
            symbols: slice_to_vec(facts[i].symbols.as_slice()),
            body: slice_to_vec(facts[i].body.as_slice()),
        };
        out.push(fact);
        assert(wire_fact_views(out@) =~= before.push(wire_fact_views(facts@)[i as int]));
        i += 1;
        assert(wire_fact_views(facts@).take(i as int) =~= wire_fact_views(facts@).take(i - 1).push(
            wire_fact_views(facts@)[i - 1],
        ));
    }
    assert(wire_fact_views(facts@).take(facts@.len() as int) =~= wire_fact_views(facts@));
    out
}

/// A copy of a signature on the wire, where there is one.
pub fn clone_external_signature(signature: &Option<schema::ExternalSignature>) -> (res: Option<
    schema::ExternalSignature,
>)
    ensures
        external_signature_view(res) == external_signature_view(*signature),
{
    match signature {
        Some(s) => Some(
            schema::ExternalSignature {
                signature: slice_to_vec(s.signature.as_slice()),
                public_key: schema::PublicKey {
                    algorithm: s.public_key.algorithm,
                    key: slice_to_vec(s.public_key.key.as_slice()),
                },
            },
        ),
        None => None,
    }
}

impl Clone for Block {
    fn clone(&self) -> (res: Self)
        ensures
            res@ == self@,
    {
        let mut public_keys = PublicKeys::new();
        public_keys.extend(&self.public_keys);
        assert(public_keys@ =~= self.public_keys@);
        Block {
            symbols: clone_strings(&self.symbols),
            facts: clone_wire_facts(&self.facts),
            public_keys,
            external_key: match &self.external_key {
                Some(k) => Some(k.clone()),
                None => None,
            },
            external_signature: clone_external_signature(&self.external_signature),
        }
    }
}

/// Reads a block from its wire form. `external_key` is the key of the
/// outside party that wrote the block, if one did. Every public key that
/// the block brings must read; the first that does not is the error.
pub fn proto_block_to_token_block(input: &schema::Block, external_key: Option<PublicKey>) -> (res:
    Result<Block, Format>)
    ensures
        res is Ok <==> all_keys_decode(input@.public_keys),
        res matches Ok(block) ==> block@ == (BlockView {
            symbols: input@.symbols,
            facts: input@.facts,
            public_keys: decoded_keys(input@.public_keys),
            external_key: optional_key_view(external_key),
            external_signature: input@.external_signature,
        }),
        res matches Err(e) ==> is_keys_error(input@.public_keys, e),
{
    let ghost wire = input@.public_keys;
    let mut keys: Vec<PublicKey> = Vec::new();
    let mut i: usize = 0;
    while i < input.public_keys.len()
        invariant
            i <= input.public_keys@.len(),
            wire == input@.public_keys,
            all_keys_decode(wire.take(i as int)),
            key_views(keys@) == decoded_keys(wire.take(i as int)),
        decreases input.public_keys@.len() - i,
    {
        let ghost before = key_views(keys@);
        match PublicKey::from_proto(&input.public_keys[i]) {
            Ok(key) => {
                let ghost view = key@;
                keys.push(key);
                assert(key_views(keys@) =~= before.push(view));
            },
            Err(e) => {
                assert(PublicKey::decoded(wire[i as int].0, wire[i as int].1) is None);
                assert(is_first_unreadable_key(wire, i as int));
                return Err(e);
            },
        }
        i += 1;
        proof {
            let taken = wire.take(i as int);
            assert forall|k: int| 0 <= k < taken.len() implies PublicKey::decoded(
                (#[trigger] taken[k]).0,
                taken[k].1,
            ) is Some by {
                if k < i - 1 {
                    assert(wire.take(i - 1)[k] == taken[k]);
                }
            }
            assert(key_views(keys@) =~= decoded_keys(taken)) by {
                assert forall|k: int| 0 <= k < taken.len() implies key_views(keys@)[k]
                    == decoded_keys(taken)[k] by {
                    if k < i - 1 {
                        assert(decoded_keys(wire.take(i - 1))[k] == PublicKey::decoded(
                            wire.take(i - 1)[k].0,
                            wire.take(i - 1)[k].1,
                        ).unwrap());
                    }
                }
            }
        }
    }
    assert(wire.take(wire.len() as int) =~= wire);
    Ok(
        Block {
            symbols: clone_strings(&input.symbols),
            facts: clone_wire_facts(&input.facts),
            public_keys: PublicKeys::from(keys),
            external_key,
            external_signature: clone_external_signature(&input.external_signature),
        },
    )
}

/// Writes a block in its wire form.
pub fn token_block_to_proto_block(input: &Block) -> (res: schema::Block)
    ensures
        res@ == (WireBlockView {
            symbols: input@.symbols,
            facts: input@.facts,
            public_keys: keys_on_wire(input@.public_keys),
            external_signature: input@.external_signature,
        }),
{
    let ghost keys = input@.public_keys;
    let mut public_keys: Vec<schema::PublicKey> = Vec::new();
    let mut i: usize = 0;
    while i < input.public_keys.keys.len()
        invariant
            i <= input.public_keys.keys@.len(),
            keys == input@.public_keys,
            wire_key_views(public_keys@) == keys_on_wire(keys.take(i as int)),
        decreases input.public_keys.keys@.len() - i,
    {
        let ghost before = wire_key_views(public_keys@);
        let wire = input.public_keys.keys[i].to_proto();
        let ghost view = (wire.algorithm, wire.key@);
        public_keys.push(wire);
        assert(wire_key_views(public_keys@) =~= before.push(view));
        i += 1;
        assert(wire_key_views(public_keys@) =~= keys_on_wire(keys.take(i as int)));
    }
    assert(keys.take(keys.len() as int) =~= keys);
    schema::Block {
        symbols: clone_strings(&input.symbols),
        facts: clone_wire_facts(&input.facts),
        public_keys,
        external_signature: clone_external_signature(&input.external_signature),
    }
}

} // verus!
