//! The authorizer's state: the blocks of the token it checks, its own
//! facts and policies, and every fact with the blocks that vouch for it.

pub mod round_trip;
pub mod snapshot;

use vstd::prelude::*;
use crate::builder::{
    all_wires_known, clone_facts, fact_views, facts_from_wire, is_unknown_symbol_error,
    read_wires, BlockBuilder, Fact, ItemView, Policy,
};
use crate::datalog::origin::{ascending, Origin};
use crate::datalog::symbol::{Name, SymbolTable};
use crate::interning::interned_all;
use crate::error::Format;
use crate::token::block::{Block, BlockView};
use crate::token::default_symbol_table;

verus! {

/// The facts that share one provenance.
#[derive(Debug)]
pub struct OriginFacts {
    pub origin: Origin,
    pub facts: Vec<Fact>,
}

/// What the facts of one provenance are: the members of the origin in
/// ascending order, and the facts.
pub struct StoreEntry {
    pub origin: Seq<usize>,
    pub facts: Seq<ItemView>,
}

impl View for OriginFacts {
    type V = StoreEntry;

    open spec fn view(&self) -> StoreEntry {
        StoreEntry { origin: self.origin.members(), facts: fact_views(self.facts@) }
    }
}

/// Whether `i` is the first entry of the store for `origin`.
pub open spec fn is_entry_index(store: Seq<StoreEntry>, origin: Seq<usize>, i: int) -> bool {
    &&& 0 <= i < store.len()
    &&& store[i].origin == origin
    &&& forall|j: int| 0 <= j < i ==> store[j].origin != origin
}

/// Whether the store has an entry for `origin`.
pub open spec fn has_entry(store: Seq<StoreEntry>, origin: Seq<usize>) -> bool {
    exists|i: int| is_entry_index(store, origin, i)
}

/// The place of the first entry of the store for `origin`.
pub open spec fn entry_index(store: Seq<StoreEntry>, origin: Seq<usize>) -> int {
    choose|i: int| is_entry_index(store, origin, i)
}

/// The store after `fact` was put in under `origin`: a fact that the
/// origin already has is not put in twice, and an origin that the store
/// does not know gets an entry at the end.
pub open spec fn store_insert(store: Seq<StoreEntry>, origin: Seq<usize>, fact: ItemView) -> Seq<
    StoreEntry,
> {
    if has_entry(store, origin) {
        let i = entry_index(store, origin);
        if store[i].facts.contains(fact) {
            store
        } else {
            store.update(i, StoreEntry { origin, facts: store[i].facts.push(fact) })
        }
    } else {
        store.push(StoreEntry { origin, facts: seq![fact] })
    }
}

/// Whether the store is in order: every origin has one entry, the members
/// of every origin stand in ascending order, and every entry holds at least
/// one fact and no fact twice. The stores that this crate builds are valid,
/// and its functions keep them so.
pub open spec fn store_valid(store: Seq<StoreEntry>) -> bool {
    &&& forall|i: int, j: int|
        0 <= i < j < store.len() ==> (#[trigger] store[i]).origin != (#[trigger] store[j]).origin
    &&& forall|i: int|
        0 <= i < store.len() ==> ascending((#[trigger] store[i]).origin) && store[i].facts.len() > 0
            && store[i].facts.no_duplicates()
}

/// The store after each of `facts` was put in under `origin`, in order.
pub open spec fn store_insert_all(store: Seq<StoreEntry>, origin: Seq<usize>, facts: Seq<ItemView>) -> Seq<
    StoreEntry,
>
    decreases facts.len(),
{
    if facts.len() == 0 {
        store
    } else {
        store_insert(store_insert_all(store, origin, facts.drop_last()), origin, facts.last())
    }
}

/// An origin that has an entry in the store has a first entry.
pub proof fn lemma_first_entry(store: Seq<StoreEntry>, origin: Seq<usize>, j: int)
    requires
        0 <= j < store.len(),
        store[j].origin == origin,
    ensures
        has_entry(store, origin),
    decreases j,
{
    if exists|k: int| 0 <= k < j && (#[trigger] store[k]).origin == origin {
        let k = choose|k: int| 0 <= k < j && (#[trigger] store[k]).origin == origin;
        lemma_first_entry(store, origin, k);
    } else {
        assert(is_entry_index(store, origin, j));
    }
}

/// Putting a fact into a valid store under an origin in order leaves the
/// store valid.
pub proof fn lemma_store_insert_valid(store: Seq<StoreEntry>, origin: Seq<usize>, fact: ItemView)
    requires
        store_valid(store),
        ascending(origin),
    ensures
        store_valid(store_insert(store, origin, fact)),
{
    let after = store_insert(store, origin, fact);
    if has_entry(store, origin) {
        let at = entry_index(store, origin);
        assert(is_entry_index(store, origin, at));
        if !store[at].facts.contains(fact) {
            let grown = store[at].facts.push(fact);
            assert(grown.no_duplicates()) by {
                assert forall|a: int, b: int| 0 <= a < grown.len() && 0 <= b < grown.len() && a
                    != b implies grown[a] != grown[b] by {
                    if a < store[at].facts.len() && b < store[at].facts.len() {
                        assert(store[at].facts[a] != store[at].facts[b]);
                    } else if a < store[at].facts.len() {
                        if grown[a] == grown[b] {
                            assert(store[at].facts[a] == fact);
                            assert(store[at].facts.contains(fact));
                        }
                    } else {
                        if grown[a] == grown[b] {
                            assert(store[at].facts[b] == fact);
                            assert(store[at].facts.contains(fact));
                        }
                    }
                }
            }
            assert forall|i: int, j: int| 0 <= i < j < after.len() implies (#[trigger] after[i]).origin
                != (#[trigger] after[j]).origin by {
                assert(after[i].origin == store[i].origin);
                assert(after[j].origin == store[j].origin);
            }
            assert forall|i: int| 0 <= i < after.len() implies ascending(
                (#[trigger] after[i]).origin,
            ) && after[i].facts.len() > 0 && after[i].facts.no_duplicates() by {
                if i != at {
                    assert(after[i] == store[i]);
                }
            }
        }
    } else {
        assert forall|i: int, j: int| 0 <= i < j < after.len() implies (#[trigger] after[i]).origin
            != (#[trigger] after[j]).origin by {
            if j < store.len() {
                assert(after[i] == store[i] && after[j] == store[j]);
            } else {
                assert(after[i] == store[i]);
                if store[i].origin == origin {
                    lemma_first_entry(store, origin, i);
                }
            }
        }
        let single = seq![fact];
        assert forall|i: int| 0 <= i < after.len() implies ascending((#[trigger] after[i]).origin)
            && after[i].facts.len() > 0 && after[i].facts.no_duplicates() by {
            if i < store.len() {
                assert(after[i] == store[i]);
            } else {
                assert(after[i].facts == single);
            }
        }
    }
}

/// Putting facts into a valid store under an origin in order leaves the
/// store valid.
pub proof fn lemma_store_insert_all_valid(
    store: Seq<StoreEntry>,
    origin: Seq<usize>,
    facts: Seq<ItemView>,
)
    requires
        store_valid(store),
        ascending(origin),
    ensures
        store_valid(store_insert_all(store, origin, facts)),
    decreases facts.len(),
{
    if facts.len() > 0 {
        lemma_store_insert_all_valid(store, origin, facts.drop_last());
        lemma_store_insert_valid(
            store_insert_all(store, origin, facts.drop_last()),
            origin,
            facts.last(),
        );
    }
}

/// Whether `facts` holds `fact`.
pub fn holds_fact(facts: &Vec<Fact>, fact: &Fact) -> (res: bool)
    ensures
        res == fact_views(facts@).contains(fact@),
{
    let mut k: usize = 0;
    while k < facts.len()
        invariant
            k <= facts@.len(),
            forall|j: int| 0 <= j < k ==> fact_views(facts@)[j] != fact@,
        decreases facts@.len() - k,
    {
        if facts[k].same(fact) {
            assert(fact_views(facts@)[k as int] == fact@);
            return true;
        }
        k += 1;
    }
    false
}

/// Every fact that the authorizer knows, under the origin that vouches for
/// it.
#[derive(Debug)]
pub struct FactSet {
    pub inner: Vec<OriginFacts>,
}

impl View for FactSet {
    type V = Seq<StoreEntry>;

    open spec fn view(&self) -> Seq<StoreEntry> {
        Seq::new(self.inner@.len(), |i: int| self.inner@[i]@)
    }
}

impl FactSet {
    /// Whether the store is in order: one entry for each origin, and no fact
    /// twice under an origin.
    pub open spec fn valid(&self) -> bool {
        store_valid(self@)
    }

    /// A store without facts.
    pub fn new() -> (res: Self)
        ensures
            res@ == Seq::<StoreEntry>::empty(),
            res.valid(),
    {
        let res = FactSet { inner: Vec::new() };
        assert(res@ =~= Seq::<StoreEntry>::empty());
        res
    }

    /// The place of the first entry for `origin`, if the store has one.
    pub fn find(&self, origin: &Origin) -> (res: Option<usize>)
        ensures
            match res {
                Some(i) => is_entry_index(self@, origin.members(), i as int) && i as int
                    == entry_index(self@, origin.members()) && has_entry(
                    self@,
                    origin.members(),
                ),
                None => !has_entry(self@, origin.members()),
            },
    {
        let ghost key = origin.members();
        let mut i: usize = 0;
        while i < self.inner.len()
            invariant
                i <= self.inner@.len(),
                key == origin.members(),
                forall|j: int| 0 <= j < i ==> self@[j].origin != key,
            decreases self.inner@.len() - i,
        {
            if self.inner[i].origin == *origin {
                assert(self@[i as int].origin == key);
                assert(is_entry_index(self@, key, i as int));
                return Some(i);
            }
            i += 1;
        }
        proof {
            if has_entry(self@, key) {
                let at = entry_index(self@, key);
                assert(self@[at].origin == key);
            }
        }
        None
    }

    /// Puts `fact` into the store under `origin`. A valid store stays
    /// valid.
    pub fn insert(&mut self, origin: &Origin, fact: Fact)
        ensures
            final(self)@ == store_insert(old(self)@, origin.members(), fact@),
            old(self).valid() ==> final(self).valid(),
    {
        let ghost before = self@;
        let ghost key = origin.members();
        let ghost put = fact@;
        // Asking an origin for its length also tells that its members are in order.
        let _ = origin.len();
        proof {
            if store_valid(before) {
                lemma_store_insert_valid(before, key, put);
            }
        }
        match self.find(origin) {
            Some(i) => {
                if holds_fact(&self.inner[i].facts, &fact) {
                    return ;
                }
                let mut facts = clone_facts(&self.inner[i].facts);
                let ghost held = fact_views(facts@);
                facts.push(fact);
                assert(fact_views(facts@) =~= held.push(fact@));
                let entry = OriginFacts { origin: origin.clone(), facts };
                self.inner.set(i, entry);
                assert(self@ =~= before.update(
                    i as int,
                    StoreEntry { origin: key, facts: before[i as int].facts.push(fact@) },
                ));
            },
            None => {
                let mut facts: Vec<Fact> = Vec::new();
                facts.push(fact);
                assert(fact_views(facts@) =~= seq![fact@]);
                self.inner.push(OriginFacts { origin: origin.clone(), facts });
                assert(self@ =~= before.push(StoreEntry { origin: key, facts: seq![fact@] }));
            },
        }
    }

    /// Puts each of `facts` into the store under `origin`, in order. A
    /// valid store stays valid.
    pub fn insert_all(&mut self, origin: &Origin, facts: Vec<Fact>)
        ensures
            final(self)@ == store_insert_all(old(self)@, origin.members(), fact_views(facts@)),
            old(self).valid() ==> final(self).valid(),
    {
        let ghost views = fact_views(facts@);
        let mut i: usize = 0;
        assert(views.take(0) =~= Seq::<ItemView>::empty());
        while i < facts.len()
            invariant
                i <= facts@.len(),
                views == fact_views(facts@),
                self@ == store_insert_all(old(self)@, origin.members(), views.take(i as int)),
                old(self).valid() ==> self.valid(),
            decreases facts@.len() - i,
        {
            self.insert(origin, facts[i].clone());
            i += 1;
            proof {
                let taken = views.take(i as int);
                assert(taken.drop_last() =~= views.take(i - 1));
                assert(taken.last() == views[i - 1]);
            }
        }
        assert(views.take(views.len() as int) =~= views);
    }
}

/// The blocks that each external key signed: the number of the key in the
/// key table, and the numbers of its blocks. The entries stand in the order
/// in which the keys were first recorded.
#[derive(Debug)]
pub struct KeyBlocks {
    pub entries: Vec<(usize, Vec<usize>)>,
}

impl View for KeyBlocks {
    type V = Seq<(usize, Seq<usize>)>;

    open spec fn view(&self) -> Seq<(usize, Seq<usize>)> {
        Seq::new(self.entries@.len(), |i: int| (self.entries@[i].0, self.entries@[i].1@))
    }
}

/// Whether `i` is the first entry for the key with number `key`.
pub open spec fn is_key_entry(entries: Seq<(usize, Seq<usize>)>, key: usize, i: int) -> bool {
    &&& 0 <= i < entries.len()
    &&& entries[i].0 == key
    &&& forall|j: int| 0 <= j < i ==> entries[j].0 != key
}

/// Whether the key with number `key` has an entry.
pub open spec fn has_key_entry(entries: Seq<(usize, Seq<usize>)>, key: usize) -> bool {
    exists|i: int| is_key_entry(entries, key, i)
}

/// The place of the first entry for the key with number `key`.
pub open spec fn key_entry_index(entries: Seq<(usize, Seq<usize>)>, key: usize) -> int {
    choose|i: int| is_key_entry(entries, key, i)
}

/// Whether every key number has one entry at most. The records that this
/// crate builds are valid, and its functions keep them so.
pub open spec fn key_blocks_valid(entries: Seq<(usize, Seq<usize>)>) -> bool {
    forall|i: int, j: int|
        0 <= i < j < entries.len() ==> (#[trigger] entries[i]).0 != (#[trigger] entries[j]).0
}

/// A key number that has an entry has a first entry.
pub proof fn lemma_first_key_entry(entries: Seq<(usize, Seq<usize>)>, key: usize, j: int)
    requires
        0 <= j < entries.len(),
        entries[j].0 == key,
    ensures
        has_key_entry(entries, key),
    decreases j,
{
    if exists|k: int| 0 <= k < j && (#[trigger] entries[k]).0 == key {
        let k = choose|k: int| 0 <= k < j && (#[trigger] entries[k]).0 == key;
        lemma_first_key_entry(entries, key, k);
    } else {
        assert(is_key_entry(entries, key, j));
    }
}

/// Recording the blocks of a key leaves valid records valid.
pub proof fn lemma_key_blocks_insert_valid(
    entries: Seq<(usize, Seq<usize>)>,
    key: usize,
    blocks: Seq<usize>,
)
    requires
        key_blocks_valid(entries),
    ensures
        key_blocks_valid(key_blocks_insert(entries, key, blocks)),
{
    let after = key_blocks_insert(entries, key, blocks);
    if has_key_entry(entries, key) {
        let at = key_entry_index(entries, key);
        assert(is_key_entry(entries, key, at));
        assert forall|i: int, j: int| 0 <= i < j < after.len() implies (#[trigger] after[i]).0
            != (#[trigger] after[j]).0 by {
            assert(after[i].0 == entries[i].0);
            assert(after[j].0 == entries[j].0);
        }
    } else {
        assert forall|i: int, j: int| 0 <= i < j < after.len() implies (#[trigger] after[i]).0
            != (#[trigger] after[j]).0 by {
            if j < entries.len() {
                assert(after[i] == entries[i] && after[j] == entries[j]);
            } else {
                assert(after[i] == entries[i]);
                if entries[i].0 == key {
                    lemma_first_key_entry(entries, key, i);
                }
            }
        }
    }
}

/// The entries after `blocks` were recorded for the key with number `key`:
/// they take the place of what the key had, or stand at the end for a key
/// that had nothing.
pub open spec fn key_blocks_insert(
    entries: Seq<(usize, Seq<usize>)>,
    key: usize,
    blocks: Seq<usize>,
) -> Seq<(usize, Seq<usize>)> {
    if has_key_entry(entries, key) {
        entries.update(key_entry_index(entries, key), (key, blocks))
    } else {
        entries.push((key, blocks))
    }
}

impl KeyBlocks {
    /// Whether every key number has one entry at most.
    pub open spec fn valid(&self) -> bool {
        key_blocks_valid(self@)
    }

    /// No key has blocks.
    pub fn new() -> (res: Self)
        ensures
            res@ == Seq::<(usize, Seq<usize>)>::empty(),
            res.valid(),
    {
        let res = KeyBlocks { entries: Vec::new() };
        assert(res@ =~= Seq::<(usize, Seq<usize>)>::empty());
        res
    }

    /// The place of the first entry for the key with number `key`, if it
    /// has one.
    pub fn find(&self, key: usize) -> (res: Option<usize>)
        ensures
            match res {
                Some(i) => is_key_entry(self@, key, i as int) && i as int == key_entry_index(
                    self@,
                    key,
                ) && has_key_entry(self@, key),
                None => !has_key_entry(self@, key),
            },
    {
        let mut i: usize = 0;
        while i < self.entries.len()
            invariant
                i <= self.entries@.len(),
                forall|j: int| 0 <= j < i ==> self@[j].0 != key,
            decreases self.entries@.len() - i,
        {
            if self.entries[i].0 == key {
                assert(self@[i as int].0 == key);
                assert(is_key_entry(self@, key, i as int));
                return Some(i);
            }
            i += 1;
        }
        proof {
            if has_key_entry(self@, key) {
                let at = key_entry_index(self@, key);
                assert(self@[at].0 == key);
            }
        }
        None
    }

    /// Records the blocks of the key with number `key`. Valid records stay
    /// valid.
    pub fn insert(&mut self, key: usize, blocks: Vec<usize>)
        ensures
            final(self)@ == key_blocks_insert(old(self)@, key, blocks@),
            old(self).valid() ==> final(self).valid(),
    {
        let ghost before = self@;
        let ghost view = blocks@;
        proof {
            if key_blocks_valid(before) {
                lemma_key_blocks_insert_valid(before, key, view);
            }
        }
        match self.find(key) {
            Some(i) => {
                self.entries.set(i, (key, blocks));
                assert(self@ =~= before.update(i as int, (key, view)));
            },
            None => {
                self.entries.push((key, blocks));
                assert(self@ =~= before.push((key, view)));
            },
        }
    }
}

/// What an authorizer holds.
pub struct AuthorizerView {
    pub authorizer_block: Seq<ItemView>,
    pub symbols: Seq<Name>,
    pub public_keys: Seq<crate::crypto::KeyView>,
    pub policies: Seq<ItemView>,
    pub blocks: Option<Seq<BlockView>>,
    pub key_blocks: Seq<(usize, Seq<usize>)>,
    pub facts: Seq<StoreEntry>,
}

/// The views of a list of blocks.
pub open spec fn block_views(blocks: Seq<Block>) -> Seq<BlockView> {
    Seq::new(blocks.len(), |i: int| blocks[i]@)
}

/// The authorizer: the facts and policies of its own, the blocks of the
/// token, the symbols and keys it knows, which blocks each external key
/// signed, and every fact under its origin.
#[derive(Debug)]
pub struct Authorizer {
    pub authorizer_block_builder: BlockBuilder,
    pub symbols: SymbolTable,
    pub policies: Vec<Policy>,
    pub blocks: Option<Vec<Block>>,
    pub public_key_to_block_id: KeyBlocks,
    pub facts: FactSet,
}

impl View for Authorizer {
    type V = AuthorizerView;

    open spec fn view(&self) -> AuthorizerView {
        AuthorizerView {
            authorizer_block: self.authorizer_block_builder@,
            symbols: self.symbols@.symbols,
            public_keys: self.symbols@.public_keys,
            policies: crate::builder::policy_views(self.policies@),
            blocks: match self.blocks {
                Some(blocks) => Some(block_views(blocks@)),
                None => None,
            },
            key_blocks: self.public_key_to_block_id@,
            facts: self.facts@,
        }
    }
}

/// The symbol space in which the facts of block `i` are written: the
/// shared space of the token for a block of the token's issuer, and for a
/// block that an outside party wrote the symbols of that block alone.
pub open spec fn block_space(block: BlockView, i: int, token_symbols: Seq<Name>) -> Seq<Name> {
    if i == 0 || block.external_key is None {
        token_symbols
    } else {
        interned_all(Seq::<Name>::empty(), block.symbols)
    }
}

/// The origin of the facts of block `i`.
pub open spec fn block_origin(i: int) -> Seq<usize> {
    seq![i as usize]
}

impl Authorizer {
    /// An authorizer that knows nothing yet.
    pub fn new() -> (res: Self)
        ensures
            res@ == (AuthorizerView {
                authorizer_block: Seq::<ItemView>::empty(),
                symbols: Seq::<Name>::empty(),
                public_keys: Seq::<crate::crypto::KeyView>::empty(),
                policies: Seq::<ItemView>::empty(),
                blocks: None,
                key_blocks: Seq::<(usize, Seq<usize>)>::empty(),
                facts: Seq::<StoreEntry>::empty(),
            }),
    {
        let policies: Vec<Policy> = Vec::new();
        assert(crate::builder::policy_views(policies@) =~= Seq::<ItemView>::empty());
        Authorizer {
            authorizer_block_builder: BlockBuilder::new(),
            symbols: default_symbol_table(),
            policies,
            blocks: None,
            public_key_to_block_id: KeyBlocks::new(),
            facts: FactSet::new(),
        }
    }

    /// Takes in the facts of block `i` of the token, each under the origin
    /// of that block. `token_symbols` is the shared symbol space of the
    /// token. Where a fact names a symbol that its symbol space does not
    /// hold, nothing is taken in.
    pub fn add_block(&mut self, block: &Block, i: usize, token_symbols: &SymbolTable) -> (res:
        Result<(), Format>)
        ensures
            res is Ok <==> all_wires_known(
                block_space(block@, i as int, token_symbols@.symbols),
                block@.facts,
            ),
            res is Ok ==> final(self)@ == (AuthorizerView {
                facts: store_insert_all(
                    old(self)@.facts,
                    block_origin(i as int),
                    read_wires(block_space(block@, i as int, token_symbols@.symbols), block@.facts),
                ),
                ..old(self)@
            }),
            old(self).facts.valid() ==> final(self).facts.valid(),
            final(self).public_key_to_block_id == old(self).public_key_to_block_id,
            res matches Err(e) ==> final(self)@ == old(self)@ && is_unknown_symbol_error(
                block_space(block@, i as int, token_symbols@.symbols),
                block@.facts,
                e,
            ),
    {
        let resolved = if i == 0 || block.external_key.is_none() {
            facts_from_wire(&block.facts, token_symbols)
        } else {
            let mut own = default_symbol_table();
            let _ = crate::builder::intern_names(&block.symbols, &mut own);
            facts_from_wire(&block.facts, &own)
        };
        match resolved {
            Ok(facts) => {
                let mut origin = Origin::new();
                origin.insert(i);
                proof {
                    origin.lemma_members();
                    let single = seq![i];
                    assert(single.to_set() =~= Set::<usize>::empty().insert(i)) by {
                        assert forall|x: usize| single.to_set().contains(x) <==> x == i by {
                            if x == i {
                                assert(single[0] == x);
                            }
                        }
                    }
                    Origin::lemma_same_members(origin.members(), single);
                }
                self.facts.insert_all(&origin, facts);
                Ok(())
            },
            Err(e) => Err(e),
        }
    }
}

} // verus!
