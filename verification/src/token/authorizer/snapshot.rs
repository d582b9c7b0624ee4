//! Writing down the whole state of an authorizer, and restoring it.

use vstd::prelude::*;
use vstd::string::StringExecFns;
use crate::builder::{
    all_names,
    all_wires_known,
    are_wires_of,
    facts_from_wire,
    facts_to_wire,
    intern_names,
    lemma_wire_is_stable,
    policies_from_wire,
    policies_to_wire,
    read_wires,
    wire_fact_views,
    wire_policy_views,
    BlockBuilder,
    ItemView,
    WireView,
};
use crate::crypto::{KeyView, PublicKey};
use crate::datalog::symbol::SymbolTable;
use crate::error::Token;
use crate::interning::lemma_interned_extends;
use crate::token::authorizer::{
    store_valid,
    block_origin,
    block_space,
    has_key_entry,
    is_key_entry,
    key_entry_index,
    store_insert_all,
    KeyBlocks,
};
use crate::builder::is_unknown_symbol_error;
use crate::token::block::{
    all_keys_decode, decoded_keys, is_first_unreadable_key, is_keys_error, optional_key_view,
    proto_block_to_token_block, Block,
};
use crate::token::public_keys::key_views;
use crate::token::MIN_SCHEMA_VERSION;
use crate::datalog::origin::{ascending, Origin, AUTHORIZER};
use crate::datalog::symbol::{names_of, Name};
use crate::error::Format;
use crate::format::schema;
use crate::format::schema::Content;
use crate::interning::{
    extends, interned_all, lemma_all_new, lemma_interned_all_concat, lemma_interned_all_extends,
};
use crate::token::authorizer::{block_views, Authorizer, AuthorizerView, StoreEntry};
use crate::token::block::{
    keys_on_wire, token_block_to_proto_block, BlockView, WireBlockView,
};
use crate::token::{default_symbol_table, MAX_SCHEMA_VERSION};

verus! {

/// The tag of one member of an origin: the authorizer's mark for the
/// authorizer, and for a block its number as a 32 bit integer.
pub open spec fn origin_tag(member: usize) -> schema::Origin {
    if member == AUTHORIZER {
        schema::Origin { content: Some(Content::Authorizer(true)) }
    } else {
        schema::Origin { content: Some(Content::Origin(member as u32)) }
    }
}

/// The tags of the members of an origin, in their order.
pub open spec fn origin_tags(members: Seq<usize>) -> Seq<schema::Origin> {
    Seq::new(members.len(), |i: int| origin_tag(members[i]))
}

/// The member that a tag stands for, if it stands for one: a tag is
/// exactly one of the authorizer's mark, set, and the number of a block.
pub open spec fn tag_member(tag: schema::Origin) -> Option<usize> {
    match tag.content {
        Some(Content::Authorizer(true)) => Some(AUTHORIZER),
        Some(Content::Origin(block)) => Some(block as usize),
        _ => None,
    }
}

/// Whether every tag stands for a member.
pub open spec fn tags_valid(tags: Seq<schema::Origin>) -> bool {
    forall|i: int| 0 <= i < tags.len() ==> (#[trigger] tag_member(tags[i])) is Some
}

/// The members that the tags stand for.
pub open spec fn tags_set(tags: Seq<schema::Origin>) -> Set<usize> {
    Set::new(|member: usize| exists|i: int| 0 <= i < tags.len() && tag_member(tags[i]) == Some(member))
}

/// The members of a set in ascending order.
pub open spec fn members_of(set: Set<usize>) -> Seq<usize> {
    choose|members: Seq<usize>| ascending(members) && members.to_set() == set
}

/// Writes the tags of an origin, one for each member, in ascending order
/// of the members. Every tag written is one that reads.
pub fn authorizer_origin_to_proto_origin(origin: &Origin) -> (res: Vec<schema::Origin>)
    ensures
        res@ == origin_tags(origin.members()),
        ascending(origin.members()),
        tags_valid(res@),
{
    let mut out: Vec<schema::Origin> = Vec::new();
    let count = origin.len();
    let mut i: usize = 0;
    while i < count
        invariant
            count == origin.members().len(),
            i <= origin.members().len(),
            out@ == origin_tags(origin.members()).take(i as int),
        decreases origin.members().len() - i,
    {
        let member = origin.get(i);
        let tag = if member == AUTHORIZER {
            schema::Origin { content: Some(Content::Authorizer(true)) }
        } else {
            schema::Origin { content: Some(Content::Origin(#[verifier::truncate] (member as u32))) }
        };
        out.push(tag);
        i += 1;
        assert(out@ =~= origin_tags(origin.members()).take(i as int));
    }
    assert(origin_tags(origin.members()).take(origin.members().len() as int) =~= origin_tags(
        origin.members(),
    ));
    assert forall|k: int| 0 <= k < out@.len() implies (#[trigger] tag_member(out@[k])) is Some by {
        assert(out@[k] == origin_tag(origin.members()[k]));
    }
    out
}

/// Reads an origin from its tags. A tag that is neither the authorizer's
/// mark, set, nor the number of a block makes the whole origin invalid.
pub fn proto_origin_to_authorizer_origin(origins: &[schema::Origin]) -> (res: Result<
    Origin,
    Format,
>)
    ensures
        res is Ok <==> tags_valid(origins@),
        res matches Ok(origin) ==> origin@ == tags_set(origins@) && origin.valid()
            && origin.members() == members_of(tags_set(origins@)),
        res matches Err(e) ==> (e matches Format::DeserializationError(text) && text@
            == "invalid origin"@),
{
    let mut new_origin = Origin::new();
    let mut i: usize = 0;
    assert(new_origin@ =~= tags_set(origins@.take(0)));
    while i < origins.len()
        invariant
            i <= origins@.len(),
            tags_valid(origins@.take(i as int)),
            new_origin@ == tags_set(origins@.take(i as int)),
            new_origin.valid(),
        decreases origins@.len() - i,
    {
        let ghost before = new_origin@;
        let member: usize = match origins[i].content {
            Some(Content::Authorizer(true)) => AUTHORIZER,
            Some(Content::Origin(o)) => o as usize,
            _ => {
                assert(tag_member(origins@[i as int]) is None);
                return Err(Format::DeserializationError(String::from_str("invalid origin")));
            },
        };
        new_origin.insert(member);
        i += 1;
        proof {
            let taken = origins@.take(i as int);
            let shorter = origins@.take(i - 1);
            assert(tag_member(origins@[i - 1]) == Some(member));
            assert forall|k: int| 0 <= k < taken.len() implies (#[trigger] tag_member(
                taken[k],
            )) is Some by {
                if k < i - 1 {
                    assert(shorter[k] == taken[k]);
                    assert(tag_member(shorter[k]) is Some);
                }
            }
            assert(new_origin@ =~= tags_set(taken)) by {
                assert forall|m: usize| before.insert(member).contains(m) <==> tags_set(
                    taken,
                ).contains(m) by {
                    if before.contains(m) {
                        let k = choose|k: int|
                            0 <= k < shorter.len() && tag_member(shorter[k]) == Some(m);
                        assert(taken[k] == shorter[k]);
                    }
                    if m == member {
                        assert(taken[i - 1] == origins@[i - 1]);
                    }
                    if tags_set(taken).contains(m) {
                        let k = choose|k: int| 0 <= k < taken.len() && tag_member(taken[k]) == Some(m);
                        if k < i - 1 {
                            assert(shorter[k] == taken[k]);
                        }
                    }
                }
            }
        }
    }
    proof {
        assert(origins@.take(origins@.len() as int) =~= origins@);
        new_origin.lemma_members();
        lemma_members_of(new_origin.members());
    }
    Ok(new_origin)
}

/// The members of the set of an ascending list are that list.
pub proof fn lemma_members_of(members: Seq<usize>)
    requires
        ascending(members),
    ensures
        members_of(members.to_set()) == members,
{
    let chosen = members_of(members.to_set());
    assert(ascending(chosen) && chosen.to_set() == members.to_set());
    Origin::lemma_same_members(chosen, members);
}

/// An origin reads back from its tags as the same origin, provided each of
/// its blocks has a number that fits in 32 bits, which is how the tag of a
/// block holds it.
pub proof fn lemma_origin_round_trip(members: Seq<usize>)
    requires
        ascending(members),
        forall|i: int|
            0 <= i < members.len() ==> members[i] == AUTHORIZER || members[i] <= u32::MAX,
    ensures
        tags_valid(origin_tags(members)),
        tags_set(origin_tags(members)) == members.to_set(),
        members_of(tags_set(origin_tags(members))) == members,
{
    let tags = origin_tags(members);
    assert forall|i: int| 0 <= i < tags.len() implies tag_member(tags[i]) == Some(members[i]) by {
        let m = members[i];
        if m != AUTHORIZER {
            assert(m as u32 as usize == m);
        }
    }
    assert(tags_set(tags) =~= members.to_set()) by {
        assert forall|m: usize| tags_set(tags).contains(m) <==> members.to_set().contains(m) by {
            if tags_set(tags).contains(m) {
                let k = choose|k: int| 0 <= k < tags.len() && tag_member(tags[k]) == Some(m);
                assert(members[k] == m);
            }
            if members.contains(m) {
                let k = choose|k: int| 0 <= k < members.len() && members[k] == m;
                assert(tag_member(tags[k]) == Some(m));
            }
        }
    }
    lemma_members_of(members);
}

/// The facts of one provenance, as the snapshot holds them.
pub struct GeneratedFactsView {
    pub origins: Seq<schema::Origin>,
    pub facts: Seq<WireView>,
}

/// An external key and its blocks, as the snapshot holds them.
pub struct KeyMapView {
    pub key: (i32, Seq<u8>),
    pub block_ids: Seq<u32>,
}

/// What a snapshot holds.
pub struct SnapshotView {
    pub version: Option<u32>,
    pub symbols: Seq<Name>,
    pub blocks: Seq<WireBlockView>,
    pub authorizer_block: WireBlockView,
    pub generated_facts: Seq<GeneratedFactsView>,
    pub policies: Seq<WireView>,
    pub public_key_map: Seq<KeyMapView>,
}

impl View for schema::GeneratedFacts {
    type V = GeneratedFactsView;

    open spec fn view(&self) -> GeneratedFactsView {
        GeneratedFactsView { origins: self.origins@, facts: wire_fact_views(self.facts@) }
    }
}

impl View for schema::KeyMap {
    type V = KeyMapView;

    open spec fn view(&self) -> KeyMapView {
        KeyMapView { key: (self.key.algorithm, self.key.key@), block_ids: self.block_ids@ }
    }
}

/// The views of a list of blocks on the wire.
pub open spec fn wire_block_views(blocks: Seq<schema::Block>) -> Seq<WireBlockView> {
    Seq::new(blocks.len(), |i: int| blocks[i]@)
}

/// The views of the facts of a snapshot, provenance by provenance.
pub open spec fn generated_views(facts: Seq<schema::GeneratedFacts>) -> Seq<GeneratedFactsView> {
    Seq::new(facts.len(), |i: int| facts[i]@)
}

/// The views of the key map of a snapshot.
pub open spec fn key_map_views(map: Seq<schema::KeyMap>) -> Seq<KeyMapView> {
    Seq::new(map.len(), |i: int| map[i]@)
}

impl View for schema::AuthorizerSnapshot {
    type V = SnapshotView;

    open spec fn view(&self) -> SnapshotView {
        SnapshotView {
            version: self.version,
            symbols: names_of(self.symbols@),
            blocks: wire_block_views(self.blocks@),
            authorizer_block: self.authorizer_block@,
            generated_facts: generated_views(self.generated_facts@),
            policies: wire_policy_views(self.policies@),
            public_key_map: key_map_views(self.public_key_map@),
        }
    }
}

/// A block in its wire form.
pub open spec fn block_on_wire(block: BlockView) -> WireBlockView {
    WireBlockView {
        symbols: block.symbols,
        facts: block.facts,
        public_keys: keys_on_wire(block.public_keys),
        external_signature: block.external_signature,
    }
}

/// The blocks of a token in their wire form; no token has no blocks.
pub open spec fn blocks_on_wire(blocks: Option<Seq<BlockView>>) -> Seq<WireBlockView> {
    match blocks {
        Some(blocks) => Seq::new(blocks.len(), |i: int| block_on_wire(blocks[i])),
        None => Seq::<WireBlockView>::empty(),
    }
}

/// All the names that the facts of the store mention, entry by entry.
pub open spec fn store_names(store: Seq<StoreEntry>) -> Seq<Name>
    decreases store.len(),
{
    if store.len() == 0 {
        Seq::<Name>::empty()
    } else {
        store_names(store.drop_last()) + all_names(store.last().facts)
    }
}

/// The symbols of the snapshot after the policies were written.
pub open spec fn policies_table(a: AuthorizerView) -> Seq<Name> {
    interned_all(Seq::<Name>::empty(), all_names(a.policies))
}

/// The symbols of the snapshot after the authorizer's own block was
/// written as well.
pub open spec fn own_block_table(a: AuthorizerView) -> Seq<Name> {
    interned_all(policies_table(a), all_names(a.authorizer_block))
}

/// The symbols of the snapshot: a fresh table that was asked for the names
/// of the policies, then of the authorizer's own facts, then of the facts
/// of the store.
pub open spec fn snapshot_table(a: AuthorizerView) -> Seq<Name> {
    interned_all(own_block_table(a), store_names(a.facts))
}

/// Whether the key table holds every key that has blocks.
pub open spec fn key_ids_known(a: AuthorizerView) -> bool {
    forall|k: int| 0 <= k < a.key_blocks.len() ==> (#[trigger] a.key_blocks[k]).0 < a.public_keys.len()
}

/// The numbers of blocks as they stand on the wire, in 32 bits.
pub open spec fn block_ids_on_wire(ids: Seq<usize>) -> Seq<u32> {
    Seq::new(ids.len(), |i: int| ids[i] as u32)
}

/// Whether `s` is the snapshot of `a`: the version is the highest that
/// this crate reads; the symbols are those of the snapshot's own table;
/// policies, the authorizer's facts and the facts of the store are written
/// in that symbol space; the blocks of the token are written as they are;
/// every entry of the store keeps the tags of its origin; and every
/// external key stands with its blocks.
pub open spec fn is_snapshot_of(a: AuthorizerView, s: SnapshotView) -> bool {
    &&& s.version == Some(MAX_SCHEMA_VERSION)
    &&& s.symbols == snapshot_table(a)
    &&& are_wires_of(snapshot_table(a), a.policies, s.policies)
    &&& s.authorizer_block.symbols == own_block_table(a).skip(policies_table(a).len() as int)
    &&& are_wires_of(snapshot_table(a), a.authorizer_block, s.authorizer_block.facts)
    &&& s.authorizer_block.public_keys == Seq::<(i32, Seq<u8>)>::empty()
    &&& s.authorizer_block.external_signature is None
    &&& s.blocks == blocks_on_wire(a.blocks)
    &&& s.generated_facts.len() == a.facts.len()
    &&& forall|k: int|
        0 <= k < a.facts.len() ==> (#[trigger] s.generated_facts[k]).origins == origin_tags(
            a.facts[k].origin,
        ) && are_wires_of(snapshot_table(a), a.facts[k].facts, s.generated_facts[k].facts)
    &&& s.public_key_map.len() == a.key_blocks.len()
    &&& forall|k: int|
        0 <= k < a.key_blocks.len() ==> (#[trigger] s.public_key_map[k]) == (KeyMapView {
            key: (
                a.public_keys[a.key_blocks[k].0 as int].algorithm.spec_tag(),
                a.public_keys[a.key_blocks[k].0 as int].bytes,
            ),
            block_ids: block_ids_on_wire(a.key_blocks[k].1),
        })
}

/// What is written in a symbol space reads the same in every symbol space
/// that begins with it.
pub proof fn lemma_wires_are_stable(
    table: Seq<Name>,
    longer: Seq<Name>,
    items: Seq<ItemView>,
    wires: Seq<WireView>,
)
    requires
        are_wires_of(table, items, wires),
        extends(longer, table),
    ensures
        are_wires_of(longer, items, wires),
{
    assert forall|k: int| 0 <= k < items.len() implies crate::builder::is_wire_of(
        longer,
        #[trigger] items[k],
        wires[k],
    ) by {
        lemma_wire_is_stable(table, longer, items[k], wires[k]);
    }
}

/// Writes the numbers of blocks in 32 bits.
fn block_ids_to_wire(ids: &Vec<usize>) -> (res: Vec<u32>)
    ensures
        res@ == block_ids_on_wire(ids@),
{
    let mut out: Vec<u32> = Vec::new();
    let mut i: usize = 0;
    while i < ids.len()
        invariant
            i <= ids@.len(),
            out@ == block_ids_on_wire(ids@).take(i as int),
        decreases ids@.len() - i,
    {
        out.push(#[verifier::truncate] (ids[i] as u32));
        i += 1;
        assert(out@ =~= block_ids_on_wire(ids@).take(i as int));
    }
    assert(block_ids_on_wire(ids@).take(ids@.len() as int) =~= block_ids_on_wire(ids@));
    out
}

impl Authorizer {
    /// Writes down the whole state of the authorizer. The snapshot has a
    /// symbol table of its own, which starts fresh. Writing fails where an
    /// external key has blocks and the key table does not hold the key.
    pub fn snapshot(&self) -> (res: Result<schema::AuthorizerSnapshot, Format>)
        ensures
            res is Ok <==> key_ids_known(self@),
            res matches Ok(s) ==> is_snapshot_of(self@, s@),
            res matches Err(e) ==> e == Format::UnknownExternalKey,
    {
        let ghost a = self@;
        let mut symbols = default_symbol_table();

        let policies = policies_to_wire(&self.policies, &mut symbols);
        let ghost t_policies = symbols@.symbols;
        assert(t_policies == policies_table(a));

        let authorizer_block = self.authorizer_block_builder.clone().build(symbols.clone_table());
        let ghost t_block = own_block_table(a);
        proof {
            lemma_interned_all_extends(t_policies, all_names(a.authorizer_block));
            assert(t_policies + authorizer_block@.symbols =~= t_block);
            lemma_all_new(t_policies, authorizer_block@.symbols);
        }
        match symbols.extend(&authorizer_block.symbols) {
            Ok(()) => {},
            Err(e) => {
                return Err(e);
            },
        }
        if !symbols.public_keys.is_disjoint(&authorizer_block.public_keys) {
            return Err(Format::PublicKeyTableOverlap);
        }
        symbols.public_keys.extend(&authorizer_block.public_keys);
        assert(symbols@.symbols == t_block);
        proof {
            lemma_wires_are_stable(t_policies, t_block, a.policies, wire_policy_views(policies@));
        }

        let authorizer_block = token_block_to_proto_block(&authorizer_block);
        assert(authorizer_block@.public_keys =~= Seq::<(i32, Seq<u8>)>::empty());

        let mut blocks: Vec<schema::Block> = Vec::new();
        match &self.blocks {
            None => {
                assert(wire_block_views(blocks@) =~= blocks_on_wire(a.blocks));
            },
            Some(token_blocks) => {
                let mut i: usize = 0;
                while i < token_blocks.len()
                    invariant
                        i <= token_blocks@.len(),
                        wire_block_views(blocks@) == blocks_on_wire(
                            Some(block_views(token_blocks@)),
                        ).take(i as int),
                    decreases token_blocks@.len() - i,
                {
                    let ghost before = wire_block_views(blocks@);
                    let wire = token_block_to_proto_block(&token_blocks[i]);
                    let ghost view = wire@;
                    blocks.push(wire);
                    assert(wire_block_views(blocks@) =~= before.push(view));
                    i += 1;
                    assert(wire_block_views(blocks@) =~= blocks_on_wire(
                        Some(block_views(token_blocks@)),
                    ).take(i as int));
                }
                assert(blocks_on_wire(a.blocks).take(token_blocks@.len() as int) =~= blocks_on_wire(
                    a.blocks,
                ));
            },
        }

        let ghost store = a.facts;
        let mut generated_facts: Vec<schema::GeneratedFacts> = Vec::new();
        let mut k: usize = 0;
        assert(store.take(0) =~= Seq::<StoreEntry>::empty());
        while k < self.facts.inner.len()
            invariant
                k <= self.facts.inner@.len(),
                a == self@,
                store == a.facts,
                t_block == own_block_table(a),
                symbols@.symbols == interned_all(t_block, store_names(store.take(k as int))),
                symbols.valid(),
                extends(symbols@.symbols, t_block),
                are_wires_of(symbols@.symbols, a.policies, wire_policy_views(policies@)),
                are_wires_of(symbols@.symbols, a.authorizer_block, authorizer_block@.facts),
                generated_views(generated_facts@).len() == k,
                forall|j: int|
                    0 <= j < k ==> (#[trigger] generated_views(generated_facts@)[j]).origins
                        == origin_tags(store[j].origin) && are_wires_of(
                        symbols@.symbols,
                        store[j].facts,
                        generated_views(generated_facts@)[j].facts,
                    ),
            decreases self.facts.inner@.len() - k,
        {
            let ghost before = symbols@.symbols;
            let ghost written = generated_views(generated_facts@);
            let entry = &self.facts.inner[k];
            let origins = authorizer_origin_to_proto_origin(&entry.origin);
            let facts = facts_to_wire(&entry.facts, &mut symbols);
            let generated = schema::GeneratedFacts { origins, facts };
            let ghost view = generated@;
            generated_facts.push(generated);
            k += 1;
            proof {
                let now = symbols@.symbols;
                let taken = store.take(k as int);
                assert(taken.drop_last() =~= store.take(k - 1));
                assert(taken.last() == store[k - 1]);
                lemma_interned_all_concat(
                    t_block,
                    store_names(store.take(k - 1)),
                    all_names(store[k - 1].facts),
                );
                lemma_interned_all_extends(before, all_names(store[k - 1].facts));
                lemma_wires_are_stable(before, now, a.policies, wire_policy_views(policies@));
                lemma_wires_are_stable(before, now, a.authorizer_block, authorizer_block@.facts);
                let all = generated_views(generated_facts@);
                assert(all =~= written.push(view));
                assert forall|j: int| 0 <= j < k implies (#[trigger] all[j]).origins == origin_tags(
                    store[j].origin,
                ) && are_wires_of(now, store[j].facts, all[j].facts) by {
                    if j < k - 1 {
                        assert(all[j] == written[j]);
                        lemma_wires_are_stable(before, now, store[j].facts, written[j].facts);
                    }
                }
            }
        }
        assert(store.take(store.len() as int) =~= store);

        let mut public_key_map: Vec<schema::KeyMap> = Vec::new();
        let mut n: usize = 0;
        while n < self.public_key_to_block_id.entries.len()
            invariant
                n <= self.public_key_to_block_id.entries@.len(),
                a == self@,
                key_map_views(public_key_map@).len() == n,
                forall|j: int| 0 <= j < n ==> (#[trigger] a.key_blocks[j]).0 < a.public_keys.len(),
                forall|j: int|
                    0 <= j < n ==> (#[trigger] key_map_views(public_key_map@)[j]) == (KeyMapView {
                        key: (
                            a.public_keys[a.key_blocks[j].0 as int].algorithm.spec_tag(),
                            a.public_keys[a.key_blocks[j].0 as int].bytes,
                        ),
                        block_ids: block_ids_on_wire(a.key_blocks[j].1),
                    }),
            decreases self.public_key_to_block_id.entries@.len() - n,
        {
            let ghost written = key_map_views(public_key_map@);
            let key_id = self.public_key_to_block_id.entries[n].0;
            assert(a.key_blocks[n as int].0 == key_id);
            let key = match self.symbols.public_keys.get_key(key_id as u64) {
                Some(key) => key,
                None => {
                    return Err(Format::UnknownExternalKey);
                },
            };
            let entry = schema::KeyMap {
                key: key.to_proto(),
                block_ids: block_ids_to_wire(&self.public_key_to_block_id.entries[n].1),
            };
            let ghost view = entry@;
            public_key_map.push(entry);
            n += 1;
            proof {
                let all = key_map_views(public_key_map@);
                assert(all =~= written.push(view));
                assert forall|j: int| 0 <= j < n implies (#[trigger] all[j]) == (KeyMapView {
                    key: (
                        a.public_keys[a.key_blocks[j].0 as int].algorithm.spec_tag(),
                        a.public_keys[a.key_blocks[j].0 as int].bytes,
                    ),
                    block_ids: block_ids_on_wire(a.key_blocks[j].1),
                }) by {
                    if j < n - 1 {
                        assert(all[j] == written[j]);
                    }
                }
            }
        }

        Ok(
            schema::AuthorizerSnapshot {
                version: Some(MAX_SCHEMA_VERSION),
                symbols: symbols.strings(),
                blocks,
                authorizer_block,
                generated_facts,
                policies,
                public_key_map,
            },
        )
    }
}

/// The version that a snapshot states; one that states none has version 0.
pub open spec fn version_of(version: Option<u32>) -> u32 {
    match version {
        Some(v) => v,
        None => 0,
    }
}

/// Whether this crate reads snapshots of that version.
pub open spec fn version_supported(version: Option<u32>) -> bool {
    MIN_SCHEMA_VERSION <= version_of(version) <= MAX_SCHEMA_VERSION
}

/// The keys of the key map, as they stand on the wire.
pub open spec fn key_map_keys(map: Seq<KeyMapView>) -> Seq<(i32, Seq<u8>)> {
    Seq::new(map.len(), |i: int| map[i].key)
}

/// The numbers of blocks that the wire holds in 32 bits.
pub open spec fn block_ids_read(ids: Seq<u32>) -> Seq<usize> {
    Seq::new(ids.len(), |i: int| ids[i] as usize)
}

/// The key table after the key map was read: each key of the map once, in
/// the order in which the map first names it.
pub open spec fn restored_keys(map: Seq<KeyMapView>) -> Seq<KeyView> {
    interned_all(Seq::<KeyView>::empty(), decoded_keys(key_map_keys(map)))
}

/// The blocks that the key map gives for `key`: those of the last entry
/// that names the key.
pub open spec fn last_blocks(map: Seq<KeyMapView>, key: KeyView) -> Seq<usize>
    decreases map.len(),
{
    if map.len() == 0 {
        Seq::<usize>::empty()
    } else if PublicKey::decoded(map.last().key.0, map.last().key.1) == Some(key) {
        block_ids_read(map.last().block_ids)
    } else {
        last_blocks(map.drop_last(), key)
    }
}

/// The blocks of each external key after the key map was read: one entry
/// for each key of the key table, under the key's number.
pub open spec fn restored_key_blocks(map: Seq<KeyMapView>) -> Seq<(usize, Seq<usize>)> {
    Seq::new(
        restored_keys(map).len(),
        |k: int| (k as usize, last_blocks(map, restored_keys(map)[k])),
    )
}

/// The external key that signed block `block`, if one did: the key of the
/// last entry of the key map that lists the block.
pub open spec fn external_key_of(map: Seq<KeyMapView>, block: usize) -> Option<KeyView>
    decreases map.len(),
{
    if map.len() == 0 {
        None
    } else if block_ids_read(map.last().block_ids).contains(block) {
        PublicKey::decoded(map.last().key.0, map.last().key.1)
    } else {
        external_key_of(map.drop_last(), block)
    }
}

/// The shared symbol space of the token after its first `n` blocks: a
/// fresh table that was asked for the symbols of each block that no
/// outside party signed. The symbols of the other blocks stay out of it.
pub open spec fn token_table(blocks: Seq<WireBlockView>, map: Seq<KeyMapView>, n: int) -> Seq<Name>
    decreases n,
{
    if n <= 0 {
        Seq::<Name>::empty()
    } else if external_key_of(map, (n - 1) as usize) is None {
        interned_all(token_table(blocks, map, n - 1), blocks[n - 1].symbols)
    } else {
        token_table(blocks, map, n - 1)
    }
}

/// Block `i` of the snapshot as the authorizer holds it.
pub open spec fn restored_block(blocks: Seq<WireBlockView>, map: Seq<KeyMapView>, i: int) -> BlockView {
    BlockView {
        symbols: blocks[i].symbols,
        facts: blocks[i].facts,
        public_keys: decoded_keys(blocks[i].public_keys),
        external_key: external_key_of(map, i as usize),
        external_signature: blocks[i].external_signature,
    }
}

/// The symbol space in which the facts of block `i` of the snapshot are
/// written.
pub open spec fn restored_space(blocks: Seq<WireBlockView>, map: Seq<KeyMapView>, i: int) -> Seq<
    Name,
> {
    block_space(restored_block(blocks, map, i), i, token_table(blocks, map, i + 1))
}

/// Whether block `i` of the snapshot reads: its keys are keys, and its
/// facts name symbols of its symbol space only.
pub open spec fn block_readable(blocks: Seq<WireBlockView>, map: Seq<KeyMapView>, i: int) -> bool {
    &&& all_keys_decode(blocks[i].public_keys)
    &&& all_wires_known(restored_space(blocks, map, i), blocks[i].facts)
}

/// Whether the first `n` blocks of the snapshot read.
pub open spec fn blocks_readable(blocks: Seq<WireBlockView>, map: Seq<KeyMapView>, n: int) -> bool {
    forall|i: int| 0 <= i < n ==> #[trigger] block_readable(blocks, map, i)
}

/// The store after the facts of the first `n` blocks were taken in, each
/// under the origin of its block.
pub open spec fn store_after_blocks(
    store: Seq<StoreEntry>,
    blocks: Seq<WireBlockView>,
    map: Seq<KeyMapView>,
    n: int,
) -> Seq<StoreEntry>
    decreases n,
{
    if n <= 0 {
        store
    } else {
        store_insert_all(
            store_after_blocks(store, blocks, map, n - 1),
            block_origin(n - 1),
            read_wires(restored_space(blocks, map, n - 1), blocks[n - 1].facts),
        )
    }
}

/// Whether the first `n` groups of facts of the snapshot read: their tags
/// are tags, and their facts name symbols of the table only.
pub open spec fn generated_readable(table: Seq<Name>, generated: Seq<GeneratedFactsView>, n: int) -> bool {
    forall|k: int|
        0 <= k < n ==> tags_valid((#[trigger] generated[k]).origins) && all_wires_known(
            table,
            generated[k].facts,
        )
}

/// The store after the first `n` groups of facts of the snapshot were put
/// in, each fact under the origin that its group states.
pub open spec fn store_after_generated(
    store: Seq<StoreEntry>,
    table: Seq<Name>,
    generated: Seq<GeneratedFactsView>,
    n: int,
) -> Seq<StoreEntry>
    decreases n,
{
    if n <= 0 {
        store
    } else {
        store_insert_all(
            store_after_generated(store, table, generated, n - 1),
            members_of(tags_set(generated[n - 1].origins)),
            read_wires(table, generated[n - 1].facts),
        )
    }
}

/// Whether block `i` of the snapshot is the first that does not read.
pub open spec fn is_first_unreadable_block(
    blocks: Seq<WireBlockView>,
    map: Seq<KeyMapView>,
    i: int,
) -> bool {
    &&& 0 <= i < blocks.len()
    &&& !block_readable(blocks, map, i)
    &&& blocks_readable(blocks, map, i)
}

/// Whether `e` is the error of block `i` of the snapshot: that of its
/// first key that is no key, or, where its keys are keys, that of the
/// first symbol number that its symbol space does not hold.
pub open spec fn is_block_error(
    blocks: Seq<WireBlockView>,
    map: Seq<KeyMapView>,
    i: int,
    e: Format,
) -> bool {
    if !all_keys_decode(blocks[i].public_keys) {
        is_keys_error(blocks[i].public_keys, e)
    } else {
        is_unknown_symbol_error(restored_space(blocks, map, i), blocks[i].facts, e)
    }
}

/// Whether `e` is the error of the first block of the snapshot that does
/// not read.
pub open spec fn is_blocks_error(blocks: Seq<WireBlockView>, map: Seq<KeyMapView>, e: Format) -> bool {
    exists|i: int|
        #![trigger is_first_unreadable_block(blocks, map, i)]
        is_first_unreadable_block(blocks, map, i) && is_block_error(blocks, map, i, e)
}

/// Whether group `k` of the facts of the snapshot is the first that does
/// not read.
pub open spec fn is_first_unreadable_group(
    table: Seq<Name>,
    generated: Seq<GeneratedFactsView>,
    k: int,
) -> bool {
    &&& 0 <= k < generated.len()
    &&& !(tags_valid(generated[k].origins) && all_wires_known(table, generated[k].facts))
    &&& generated_readable(table, generated, k)
}

/// Whether `e` is the error of group `k` of the facts of the snapshot: an
/// invalid origin, or, where the tags are tags, the first symbol number
/// that the table does not hold.
pub open spec fn is_group_error(
    table: Seq<Name>,
    generated: Seq<GeneratedFactsView>,
    k: int,
    e: Format,
) -> bool {
    if !tags_valid(generated[k].origins) {
        e matches Format::DeserializationError(text) && text@ == "invalid origin"@
    } else {
        is_unknown_symbol_error(table, generated[k].facts, e)
    }
}

/// Whether `e` is the error of the first group of facts of the snapshot
/// that does not read.
pub open spec fn is_generated_error(
    table: Seq<Name>,
    generated: Seq<GeneratedFactsView>,
    e: Format,
) -> bool {
    exists|k: int|
        #![trigger is_first_unreadable_group(table, generated, k)]
        is_first_unreadable_group(table, generated, k) && is_group_error(table, generated, k, e)
}

/// Whether `e` is the error of restoring a snapshot that does not restore:
/// the error of what, in the order keys of the key map, keys and facts of
/// the authorizer's own block, policies, blocks of the token, facts, is
/// the first that does not read.
pub open spec fn is_restore_error(s: SnapshotView, e: Format) -> bool {
    let table = restored_table(s);
    if !all_keys_decode(key_map_keys(s.public_key_map)) {
        is_keys_error(key_map_keys(s.public_key_map), e)
    } else if !all_keys_decode(s.authorizer_block.public_keys) {
        is_keys_error(s.authorizer_block.public_keys, e)
    } else if !all_wires_known(table, s.authorizer_block.facts) {
        is_unknown_symbol_error(table, s.authorizer_block.facts, e)
    } else if !all_wires_known(table, s.policies) {
        is_unknown_symbol_error(table, s.policies, e)
    } else if !blocks_readable(s.blocks, s.public_key_map, s.blocks.len() as int) {
        is_blocks_error(s.blocks, s.public_key_map, e)
    } else {
        is_generated_error(table, s.generated_facts, e)
    }
}

/// The symbol table of a restored authorizer: a fresh table that was asked
/// for the symbols of the snapshot.
pub open spec fn restored_table(s: SnapshotView) -> Seq<Name> {
    interned_all(Seq::<Name>::empty(), s.symbols)
}

/// Whether a snapshot of a supported version restores: every key is a key
/// of a known algorithm, every fact and policy names symbols of its symbol
/// space only, and every tag of an origin is a tag.
pub open spec fn restorable(s: SnapshotView) -> bool {
    &&& all_keys_decode(key_map_keys(s.public_key_map))
    &&& all_keys_decode(s.authorizer_block.public_keys)
    &&& all_wires_known(restored_table(s), s.authorizer_block.facts)
    &&& all_wires_known(restored_table(s), s.policies)
    &&& blocks_readable(s.blocks, s.public_key_map, s.blocks.len() as int)
    &&& generated_readable(restored_table(s), s.generated_facts, s.generated_facts.len() as int)
}

/// The authorizer that a snapshot restores to.
pub open spec fn restored(s: SnapshotView) -> AuthorizerView {
    AuthorizerView {
        authorizer_block: read_wires(restored_table(s), s.authorizer_block.facts),
        symbols: restored_table(s),
        public_keys: restored_keys(s.public_key_map),
        policies: read_wires(restored_table(s), s.policies),
        blocks: if s.blocks.len() == 0 {
            None
        } else {
            Some(
                Seq::new(s.blocks.len(), |i: int| restored_block(s.blocks, s.public_key_map, i)),
            )
        },
        key_blocks: restored_key_blocks(s.public_key_map),
        facts: store_after_generated(
            store_after_blocks(
                Seq::<StoreEntry>::empty(),
                s.blocks,
                s.public_key_map,
                s.blocks.len() as int,
            ),
            restored_table(s),
            s.generated_facts,
            s.generated_facts.len() as int,
        ),
    }
}

/// Reads the numbers of blocks that the wire holds in 32 bits.
fn block_ids_from_wire(ids: &Vec<u32>) -> (res: Vec<usize>)
    ensures
        res@ == block_ids_read(ids@),
{
    let mut out: Vec<usize> = Vec::new();
    let mut i: usize = 0;
    while i < ids.len()
        invariant
            i <= ids@.len(),
            out@ == block_ids_read(ids@).take(i as int),
        decreases ids@.len() - i,
    {
        out.push(ids[i] as usize);
        i += 1;
        assert(out@ =~= block_ids_read(ids@).take(i as int));
    }
    assert(block_ids_read(ids@).take(ids@.len() as int) =~= block_ids_read(ids@));
    out
}

/// Whether the list of block numbers holds `block`.
fn lists_block(ids: &Vec<u32>, block: usize) -> (res: bool)
    ensures
        res == block_ids_read(ids@).contains(block),
{
    let mut i: usize = 0;
    while i < ids.len()
        invariant
            i <= ids@.len(),
            forall|j: int| 0 <= j < i ==> block_ids_read(ids@)[j] != block,
        decreases ids@.len() - i,
    {
        if ids[i] as usize == block {
            assert(block_ids_read(ids@)[i as int] == block);
            return true;
        }
        i += 1;
    }
    false
}

/// Reads the key map of a snapshot: puts each key into the key table and
/// records its blocks under the key's number. Hands back the blocks of
/// each key, and the keys of the entries in the order of the map. The
/// first key that does not read is the error.
fn read_key_map(map: &Vec<schema::KeyMap>, symbols: &mut SymbolTable) -> (res: Result<
    (KeyBlocks, Vec<PublicKey>),
    Format,
>)
    requires
        old(symbols)@.public_keys == Seq::<KeyView>::empty(),
    ensures
        res is Ok <==> all_keys_decode(key_map_keys(key_map_views(map@))),
        res matches Ok(read) ==> read.0@ == restored_key_blocks(key_map_views(map@)) && key_views(
            read.1@,
        ) == decoded_keys(key_map_keys(key_map_views(map@))) && final(symbols)@.public_keys
            == restored_keys(key_map_views(map@)),
        res matches Ok(read) ==> read.0.valid(),
        res matches Err(e) ==> is_keys_error(key_map_keys(key_map_views(map@)), e),
        final(symbols)@.symbols == old(symbols)@.symbols,
{
    let ghost views = key_map_views(map@);
    let ghost wire = key_map_keys(views);
    let mut key_blocks = KeyBlocks::new();
    let mut keys: Vec<PublicKey> = Vec::new();
    let mut j: usize = 0;
    proof {
        assert(views.take(0) =~= Seq::<KeyMapView>::empty());
        assert(decoded_keys(key_map_keys(views.take(0))) =~= Seq::<KeyView>::empty());
        assert(key_blocks@ =~= restored_key_blocks(views.take(0)));
        assert(key_views(keys@) =~= decoded_keys(wire.take(0)));
    }
    while j < map.len()
        invariant
            j <= map@.len(),
            views == key_map_views(map@),
            wire == key_map_keys(views),
            all_keys_decode(wire.take(j as int)),
            key_views(keys@) == decoded_keys(wire.take(j as int)),
            symbols@.public_keys == restored_keys(views.take(j as int)),
            symbols@.symbols == old(symbols)@.symbols,
            key_blocks@ == restored_key_blocks(views.take(j as int)),
            key_blocks.valid(),
        decreases map@.len() - j,
    {
        let ghost before_keys = key_views(keys@);
        let ghost table = symbols@.public_keys;
        let ghost entries = key_blocks@;
        let public_key = match PublicKey::from_proto(&map[j].key) {
            Ok(key) => key,
            Err(e) => {
                assert(PublicKey::decoded(wire[j as int].0, wire[j as int].1) is None);
                assert(is_first_unreadable_key(wire, j as int));
                return Err(e);
            },
        };
        let ghost key = public_key@;
        let held = symbols.public_keys.current_offset();
        let new_key_id = symbols.public_keys.insert(&public_key);
        let holds = symbols.public_keys.current_offset();
        let block_ids = block_ids_from_wire(&map[j].block_ids);
        key_blocks.insert(new_key_id as usize, block_ids);
        keys.push(public_key);
        j += 1;
        proof {
            let taken = wire.take(j as int);
            let shorter = views.take(j - 1);
            let longer = views.take(j as int);
            assert(longer.drop_last() =~= shorter);
            assert(longer.last() == views[j - 1]);
            assert(key_views(keys@) =~= before_keys.push(key));
            assert forall|k: int| 0 <= k < taken.len() implies PublicKey::decoded(
                (#[trigger] taken[k]).0,
                taken[k].1,
            ) is Some by {
                if k < j - 1 {
                    assert(wire.take(j - 1)[k] == taken[k]);
                }
            }
            assert(key_views(keys@) =~= decoded_keys(taken)) by {
                assert forall|k: int| 0 <= k < taken.len() implies key_views(keys@)[k]
                    == decoded_keys(taken)[k] by {
                    if k < j - 1 {
                        assert(decoded_keys(wire.take(j - 1))[k] == PublicKey::decoded(
                            wire.take(j - 1)[k].0,
                            wire.take(j - 1)[k].1,
                        ).unwrap());
                    }
                }
            }
            let read_longer = decoded_keys(key_map_keys(longer));
            let read_shorter = decoded_keys(key_map_keys(shorter));
            assert(read_longer.drop_last() =~= read_shorter);
            assert(read_longer.last() == key);
            assert(symbols@.public_keys == restored_keys(longer));
            lemma_interned_all_extends(Seq::<KeyView>::empty(), read_shorter);
            lemma_interned_extends(table, key);
            let now = symbols@.public_keys;
            let id = new_key_id as int;
            assert(entries.len() == table.len());
            assert(forall|k: int| 0 <= k < entries.len() ==> (#[trigger] entries[k]).0 == k);
            if id < entries.len() {
                assert(is_key_entry(entries, new_key_id as usize, id));
                assert(key_entry_index(entries, new_key_id as usize) == id);
            } else {
                if has_key_entry(entries, new_key_id as usize) {
                    let at = key_entry_index(entries, new_key_id as usize);
                    assert(entries[at].0 == at);
                }
            }
            assert(key_blocks@ =~= restored_key_blocks(longer)) by {
                assert forall|k: int| 0 <= k < now.len() implies key_blocks@[k] == (
                    k as usize,
                    last_blocks(longer, now[k]),
                ) by {
                    if k != id {
                        assert(now[k] != now[id]);
                        assert(now[k] == table[k]);
                    }
                }
            }
        }
    }
    proof {
        assert(wire.take(wire.len() as int) =~= wire);
        assert(views.take(views.len() as int) =~= views);
    }
    Ok((key_blocks, keys))
}

/// The external key that signed block `block`, if one did. `keys` are the
/// keys of the entries of the key map.
fn external_key_for(map: &Vec<schema::KeyMap>, keys: &Vec<PublicKey>, block: usize) -> (res: Option<
    PublicKey,
>)
    requires
        all_keys_decode(key_map_keys(key_map_views(map@))),
        key_views(keys@) == decoded_keys(key_map_keys(key_map_views(map@))),
    ensures
        optional_key_view(res) == external_key_of(key_map_views(map@), block),
{
    let ghost views = key_map_views(map@);
    let mut k: usize = map.len();
    assert(views.take(k as int) =~= views);
    assert(keys@.len() == map@.len()) by {
        assert(key_views(keys@).len() == decoded_keys(key_map_keys(views)).len());
    }
    while k > 0
        invariant
            k <= map@.len(),
            keys@.len() == map@.len(),
            views == key_map_views(map@),
            all_keys_decode(key_map_keys(views)),
            key_views(keys@) == decoded_keys(key_map_keys(views)),
            external_key_of(views, block) == external_key_of(views.take(k as int), block),
        decreases k,
    {
        let ghost taken = views.take(k as int);
        assert(taken.last() == views[k - 1]);
        assert(taken.drop_last() =~= views.take(k - 1));
        if lists_block(&map[k - 1].block_ids, block) {
            let key = keys[k - 1].clone();
            proof {
                assert(key_views(keys@)[k - 1] == keys@[k - 1]@);
                assert(decoded_keys(key_map_keys(views))[k - 1] == PublicKey::decoded(
                    views[k - 1].key.0,
                    views[k - 1].key.1,
                ).unwrap());
                assert(PublicKey::decoded(
                    (#[trigger] key_map_keys(views)[k - 1]).0,
                    key_map_keys(views)[k - 1].1,
                ) is Some);
            }
            return Some(key);
        }
        k -= 1;
    }
    None
}

/// Reads the blocks of a snapshot and takes their facts into the
/// authorizer, each under the origin of its block. The symbols of a block
/// join the shared symbol space of the token unless an outside party
/// signed the block. The first block that does not read is the error.
fn read_blocks(
    authorizer: &mut Authorizer,
    blocks: &Vec<schema::Block>,
    map: &Vec<schema::KeyMap>,
    keys: &Vec<PublicKey>,
) -> (res: Result<Vec<Block>, Format>)
    requires
        all_keys_decode(key_map_keys(key_map_views(map@))),
        key_views(keys@) == decoded_keys(key_map_keys(key_map_views(map@))),
    ensures
        res is Ok <==> blocks_readable(
            wire_block_views(blocks@),
            key_map_views(map@),
            blocks@.len() as int,
        ),
        res matches Ok(read) ==> block_views(read@) == Seq::new(
            blocks@.len(),
            |i: int| restored_block(wire_block_views(blocks@), key_map_views(map@), i),
        ) && final(authorizer)@ == (AuthorizerView {
            facts: store_after_blocks(
                old(authorizer)@.facts,
                wire_block_views(blocks@),
                key_map_views(map@),
                blocks@.len() as int,
            ),
            ..old(authorizer)@
        }),
        res is Ok && old(authorizer).facts.valid() ==> final(authorizer).facts.valid(),
        res matches Err(e) ==> is_blocks_error(wire_block_views(blocks@), key_map_views(map@), e),
{
    let ghost wires = wire_block_views(blocks@);
    let ghost views = key_map_views(map@);
    let ghost start = authorizer@;
    let mut token_symbols = default_symbol_table();
    let mut out: Vec<Block> = Vec::new();
    let mut i: usize = 0;
    assert(block_views(out@) =~= Seq::new(0nat, |i: int| restored_block(wires, views, i)));
    while i < blocks.len()
        invariant
            i <= blocks@.len(),
            wires == wire_block_views(blocks@),
            views == key_map_views(map@),
            all_keys_decode(key_map_keys(views)),
            key_views(keys@) == decoded_keys(key_map_keys(views)),
            token_symbols@.symbols == token_table(wires, views, i as int),
            blocks_readable(wires, views, i as int),
            block_views(out@) == Seq::new(i as nat, |k: int| restored_block(wires, views, k)),
            authorizer@ == (AuthorizerView {
                facts: store_after_blocks(start.facts, wires, views, i as int),
                ..start
            }),
            store_valid(start.facts) ==> authorizer.facts.valid(),
            start == old(authorizer)@,
        decreases blocks@.len() - i,
    {
        let ghost read = block_views(out@);
        let external = external_key_for(map, keys, i);
        if external.is_none() {
            let _ = intern_names(&blocks[i].symbols, &mut token_symbols);
        }
        assert(token_symbols@.symbols == token_table(wires, views, i + 1));
        assert(wires[i as int] == blocks@[i as int]@);
        let block = match proto_block_to_token_block(&blocks[i], external) {
            Ok(block) => block,
            Err(e) => {
                assert(!block_readable(wires, views, i as int));
                assert(is_first_unreadable_block(wires, views, i as int));
                return Err(e);
            },
        };
        assert(block@ == restored_block(wires, views, i as int));
        match authorizer.add_block(&block, i, &token_symbols) {
            Ok(()) => {},
            Err(e) => {
                assert(!block_readable(wires, views, i as int));
                assert(is_first_unreadable_block(wires, views, i as int));
                return Err(e);
            },
        }
        let ghost view = block@;
        out.push(block);
        i += 1;
        proof {
            assert(block_views(out@) =~= read.push(view));
            assert(block_views(out@) =~= Seq::new(
                i as nat,
                |k: int| restored_block(wires, views, k),
            ));
            assert(block_readable(wires, views, i - 1));
        }
    }
    Ok(out)
}

/// Puts the facts of a snapshot into the authorizer, each under the origin
/// that its group states. The first tag that is no tag, or the first fact
/// that names a symbol that the table does not hold, is the error.
fn read_generated_facts(
    authorizer: &mut Authorizer,
    generated: &Vec<schema::GeneratedFacts>,
) -> (res: Result<(), Format>)
    ensures
        res is Ok <==> generated_readable(
            old(authorizer)@.symbols,
            generated_views(generated@),
            generated@.len() as int,
        ),
        res is Ok ==> final(authorizer)@ == (AuthorizerView {
            facts: store_after_generated(
                old(authorizer)@.facts,
                old(authorizer)@.symbols,
                generated_views(generated@),
                generated@.len() as int,
            ),
            ..old(authorizer)@
        }),
        res is Ok && old(authorizer).facts.valid() ==> final(authorizer).facts.valid(),
        res matches Err(e) ==> is_generated_error(
            old(authorizer)@.symbols,
            generated_views(generated@),
            e,
        ),
{
    let ghost views = generated_views(generated@);
    let ghost start = authorizer@;
    let ghost table = start.symbols;
    let mut n: usize = 0;
    while n < generated.len()
        invariant
            n <= generated@.len(),
            views == generated_views(generated@),
            start == old(authorizer)@,
            table == start.symbols,
            generated_readable(table, views, n as int),
            authorizer@ == (AuthorizerView {
                facts: store_after_generated(start.facts, table, views, n as int),
                ..start
            }),
            store_valid(start.facts) ==> authorizer.facts.valid(),
        decreases generated@.len() - n,
    {
        assert(views[n as int] == generated@[n as int]@);
        let origin = match proto_origin_to_authorizer_origin(generated[n].origins.as_slice()) {
            Ok(origin) => origin,
            Err(e) => {
                assert(!tags_valid(views[n as int].origins));
                assert(is_first_unreadable_group(table, views, n as int));
                return Err(e);
            },
        };
        let facts = match facts_from_wire(&generated[n].facts, &authorizer.symbols) {
            Ok(facts) => facts,
            Err(e) => {
                assert(!all_wires_known(table, views[n as int].facts));
                assert(is_first_unreadable_group(table, views, n as int));
                return Err(e);
            },
        };
        authorizer.facts.insert_all(&origin, facts);
        n += 1;
    }
    Ok(())
}

impl Authorizer {
    /// Restores an authorizer from a snapshot. A snapshot of a version that
    /// this crate does not read is refused with the range of versions that
    /// it reads and the version found. Then every key, every block, every
    /// policy and every fact has to read; the first that does not is the
    /// error, and no authorizer comes out. In the authorizer that comes
    /// out, every origin has one entry of facts and every external key one
    /// entry of blocks.
    pub fn from_snapshot(input: schema::AuthorizerSnapshot) -> (res: Result<Self, Token>)
        ensures
            !version_supported(input@.version) ==> res == Err::<Self, Token>(
                Token::Format(
                    Format::Version {
                        minimum: MIN_SCHEMA_VERSION,
                        maximum: MAX_SCHEMA_VERSION,
                        actual: version_of(input@.version),
                    },
                ),
            ),
            version_supported(input@.version) ==> (res is Ok <==> restorable(input@)),
            res matches Ok(authorizer) ==> authorizer@ == restored(input@),
            res matches Ok(authorizer) ==> authorizer.facts.valid()
                && authorizer.public_key_to_block_id.valid(),
            version_supported(input@.version) ==> (res matches Err(e) ==> (e matches Token::Format(
                f,
            ) && is_restore_error(input@, f))),
    {
        let version = match input.version {
            Some(v) => v,
            None => 0,
        };
        if version < MIN_SCHEMA_VERSION || version > MAX_SCHEMA_VERSION {
            return Err(
                Token::Format(
                    Format::Version {
                        minimum: MIN_SCHEMA_VERSION,
                        maximum: MAX_SCHEMA_VERSION,
                        actual: version,
                    },
                ),
            );
        }
        let ghost s = input@;

        let mut symbols = default_symbol_table();
        let _ = intern_names(&input.symbols, &mut symbols);
        assert(symbols@.symbols == restored_table(s));

        let (public_key_to_block_id, external_keys) = match read_key_map(
            &input.public_key_map,
            &mut symbols,
        ) {
            Ok(read) => read,
            Err(e) => {
                return Err(Token::Format(e));
            },
        };

        let authorizer_block = match proto_block_to_token_block(&input.authorizer_block, None) {
            Ok(block) => block,
            Err(e) => {
                return Err(Token::Format(e));
            },
        };
        let authorizer_block_builder = match BlockBuilder::convert_from(&authorizer_block, &symbols) {
            Ok(builder) => builder,
            Err(e) => {
                return Err(Token::Format(e));
            },
        };
        let policies = match policies_from_wire(&input.policies, &symbols) {
            Ok(policies) => policies,
            Err(e) => {
                return Err(Token::Format(e));
            },
        };

        let mut authorizer = Authorizer::new();
        authorizer.symbols = symbols;
        authorizer.authorizer_block_builder = authorizer_block_builder;
        authorizer.policies = policies;
        authorizer.public_key_to_block_id = public_key_to_block_id;

        let blocks = match read_blocks(
            &mut authorizer,
            &input.blocks,
            &input.public_key_map,
            &external_keys,
        ) {
            Ok(blocks) => blocks,
            Err(e) => {
                return Err(Token::Format(e));
            },
        };
        let ghost read = block_views(blocks@);
        assert(read =~= Seq::new(
            s.blocks.len(),
            |i: int| restored_block(s.blocks, s.public_key_map, i),
        ));
        if blocks.len() > 0 {
            authorizer.blocks = Some(blocks);
        }

        match read_generated_facts(&mut authorizer, &input.generated_facts) {
            Ok(()) => {},
            Err(e) => {
                return Err(Token::Format(e));
            },
        }

        proof {
            let a = authorizer@;
            let r = restored(s);
            assert(a.authorizer_block == r.authorizer_block);
            assert(a.symbols == r.symbols);
            assert(a.public_keys == r.public_keys);
            assert(a.policies == r.policies);
            assert(a.blocks == r.blocks);
            assert(a.key_blocks == r.key_blocks);
            assert(a.facts == r.facts);
        }
        Ok(authorizer)
    }
}

} // verus!
