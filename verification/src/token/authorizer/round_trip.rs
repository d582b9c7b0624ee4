//! What a snapshot keeps: restoring the snapshot of an authorizer gives
//! back its policies, its own facts, the blocks of the token, the blocks of
//! each external key, and every fact under the origin it had.

use vstd::prelude::*;
use crate::builder::{all_wires_known, are_wires_of, lemma_wire_is_stable, read_wires, ItemView, WireView};
use crate::crypto::{KeyView, PublicKey};
use crate::datalog::origin::{ascending, AUTHORIZER};
use crate::datalog::symbol::Name;
use crate::interning::{lemma_interned_all_extends, lemma_interned_all_of_distinct};
use crate::token::authorizer::snapshot::{
    block_ids_on_wire,
    block_ids_read,
    block_on_wire,
    blocks_on_wire,
    blocks_readable,
    external_key_of,
    generated_readable,
    is_snapshot_of,
    key_ids_known,
    key_map_keys,
    last_blocks,
    lemma_origin_round_trip,
    members_of,
    own_block_table,
    policies_table,
    restorable,
    restored,
    restored_block,
    restored_key_blocks,
    restored_keys,
    restored_space,
    restored_table,
    snapshot_table,
    store_after_blocks,
    store_after_generated,
    store_names,
    tags_set,
    tags_valid,
    version_supported,
    GeneratedFactsView,
    KeyMapView,
    SnapshotView,
};
use crate::token::authorizer::{
    block_origin, entry_index, has_entry, is_entry_index, key_blocks_valid,
    lemma_store_insert_all_valid, store_insert, store_insert_all, store_valid, AuthorizerView,
    StoreEntry,
};
use crate::token::block::{all_keys_decode, decoded_keys, keys_on_wire, BlockView, WireBlockView};

verus! {

/// Whether the store holds `fact` under `origin`.
pub open spec fn holds(store: Seq<StoreEntry>, origin: Seq<usize>, fact: ItemView) -> bool {
    exists|k: int|
        0 <= k < store.len() && (#[trigger] store[k]).origin == origin && store[k].facts.contains(
            fact,
        )
}

/// After a fact was put in, the store holds that fact under its origin,
/// and besides it what it held before.
pub proof fn lemma_store_insert_holds(
    store: Seq<StoreEntry>,
    origin: Seq<usize>,
    fact: ItemView,
    o: Seq<usize>,
    f: ItemView,
)
    ensures
        holds(store_insert(store, origin, fact), o, f) <==> holds(store, o, f) || (o == origin
            && f == fact),
{
    let after = store_insert(store, origin, fact);
    if has_entry(store, origin) {
        let i = entry_index(store, origin);
        assert(is_entry_index(store, origin, i));
        if store[i].facts.contains(fact) {
            assert(after == store);
            if o == origin && f == fact {
                assert(store[i].origin == o && store[i].facts.contains(f));
            }
        } else {
            let grown = store[i].facts.push(fact);
            assert(after[i].facts == grown);
            assert(grown[grown.len() - 1] == fact);
            if holds(store, o, f) {
                let k = choose|k: int|
                    0 <= k < store.len() && (#[trigger] store[k]).origin == o
                        && store[k].facts.contains(f);
                if k == i {
                    let at = choose|at: int| 0 <= at < store[i].facts.len() && store[i].facts[at] == f;
                    assert(grown[at] == f);
                    assert(after[i].origin == o && after[i].facts.contains(f));
                } else {
                    assert(after[k] == store[k]);
                    assert(after[k].origin == o && after[k].facts.contains(f));
                }
            }
            if o == origin && f == fact {
                assert(after[i].origin == o && after[i].facts.contains(f));
            }
            if holds(after, o, f) {
                let k = choose|k: int|
                    0 <= k < after.len() && (#[trigger] after[k]).origin == o
                        && after[k].facts.contains(f);
                if k == i {
                    let at = choose|at: int| 0 <= at < grown.len() && grown[at] == f;
                    if at < store[i].facts.len() {
                        assert(store[i].facts[at] == f);
                        assert(store[i].origin == o && store[i].facts.contains(f));
                    }
                } else {
                    assert(after[k] == store[k]);
                    assert(store[k].origin == o && store[k].facts.contains(f));
                }
            }
        }
    } else {
        let single = seq![fact];
        assert(single[0] == fact);
        assert(after[store.len() as int].facts == single);
        if holds(store, o, f) {
            let k = choose|k: int|
                0 <= k < store.len() && (#[trigger] store[k]).origin == o && store[k].facts.contains(
                    f,
                );
            assert(after[k] == store[k]);
            assert(after[k].origin == o && after[k].facts.contains(f));
        }
        if o == origin && f == fact {
            assert(after[store.len() as int].origin == o && after[store.len() as int].facts.contains(
                f,
            ));
        }
        if holds(after, o, f) {
            let k = choose|k: int|
                0 <= k < after.len() && (#[trigger] after[k]).origin == o && after[k].facts.contains(
                    f,
                );
            if k < store.len() {
                assert(after[k] == store[k]);
                assert(store[k].origin == o && store[k].facts.contains(f));
            } else {
                let at = choose|at: int| 0 <= at < single.len() && single[at] == f;
                assert(f == fact);
            }
        }
    }
}

/// After facts were put in under an origin, the store holds those facts
/// under that origin, and besides them what it held before.
pub proof fn lemma_store_insert_all_holds(
    store: Seq<StoreEntry>,
    origin: Seq<usize>,
    facts: Seq<ItemView>,
    o: Seq<usize>,
    f: ItemView,
)
    ensures
        holds(store_insert_all(store, origin, facts), o, f) <==> holds(store, o, f) || (o == origin
            && facts.contains(f)),
    decreases facts.len(),
{
    if facts.len() > 0 {
        let shorter = facts.drop_last();
        lemma_store_insert_all_holds(store, origin, shorter, o, f);
        lemma_store_insert_holds(
            store_insert_all(store, origin, shorter),
            origin,
            facts.last(),
            o,
            f,
        );
        if shorter.contains(f) {
            let at = choose|at: int| 0 <= at < shorter.len() && shorter[at] == f;
            assert(facts[at] == f);
        }
        if f == facts.last() {
            assert(facts[facts.len() - 1] == f);
        }
        if facts.contains(f) {
            let at = choose|at: int| 0 <= at < facts.len() && facts[at] == f;
            if at < facts.len() - 1 {
                assert(shorter[at] == f);
            }
        }
    }
}

/// Whether one of the first `n` blocks of the snapshot holds `f`, and `o`
/// is the origin of that block.
pub open spec fn is_block_fact(
    blocks: Seq<WireBlockView>,
    map: Seq<KeyMapView>,
    n: int,
    o: Seq<usize>,
    f: ItemView,
) -> bool {
    exists|i: int|
        0 <= i < n && #[trigger] block_origin(i) == o && read_wires(
            restored_space(blocks, map, i),
            blocks[i].facts,
        ).contains(f)
}

/// After the facts of the blocks were taken in, the store holds each fact
/// of each block under the origin of the block, and besides them what it
/// held before.
pub proof fn lemma_after_blocks_holds(
    store: Seq<StoreEntry>,
    blocks: Seq<WireBlockView>,
    map: Seq<KeyMapView>,
    n: int,
    o: Seq<usize>,
    f: ItemView,
)
    requires
        0 <= n,
    ensures
        holds(store_after_blocks(store, blocks, map, n), o, f) <==> holds(store, o, f)
            || is_block_fact(blocks, map, n, o, f),
    decreases n,
{
    if n > 0 {
        lemma_after_blocks_holds(store, blocks, map, n - 1, o, f);
        let facts = read_wires(restored_space(blocks, map, n - 1), blocks[n - 1].facts);
        lemma_store_insert_all_holds(
            store_after_blocks(store, blocks, map, n - 1),
            block_origin(n - 1),
            facts,
            o,
            f,
        );
        if is_block_fact(blocks, map, n - 1, o, f) {
            let i = choose|i: int|
                0 <= i < n - 1 && #[trigger] block_origin(i) == o && read_wires(
                    restored_space(blocks, map, i),
                    blocks[i].facts,
                ).contains(f);
            assert(0 <= i < n && block_origin(i) == o);
        }
        if o == block_origin(n - 1) && facts.contains(f) {
            assert(is_block_fact(blocks, map, n, o, f));
        }
        if is_block_fact(blocks, map, n, o, f) {
            let i = choose|i: int|
                0 <= i < n && #[trigger] block_origin(i) == o && read_wires(
                    restored_space(blocks, map, i),
                    blocks[i].facts,
                ).contains(f);
            if i < n - 1 {
                assert(is_block_fact(blocks, map, n - 1, o, f));
            }
        }
    }
}

/// Whether one of the first `n` groups of facts of the snapshot holds `f`,
/// and `o` is the origin that the group states.
pub open spec fn is_generated_fact(
    table: Seq<Name>,
    generated: Seq<GeneratedFactsView>,
    n: int,
    o: Seq<usize>,
    f: ItemView,
) -> bool {
    exists|k: int|
        0 <= k < n && members_of(tags_set((#[trigger] generated[k]).origins)) == o && read_wires(
            table,
            generated[k].facts,
        ).contains(f)
}

/// After the facts of the snapshot were put in, the store holds each fact
/// of each group under the origin of the group, and besides them what it
/// held before.
pub proof fn lemma_after_generated_holds(
    store: Seq<StoreEntry>,
    table: Seq<Name>,
    generated: Seq<GeneratedFactsView>,
    n: int,
    o: Seq<usize>,
    f: ItemView,
)
    requires
        0 <= n,
    ensures
        holds(store_after_generated(store, table, generated, n), o, f) <==> holds(store, o, f)
            || is_generated_fact(table, generated, n, o, f),
    decreases n,
{
    if n > 0 {
        lemma_after_generated_holds(store, table, generated, n - 1, o, f);
        let origin = members_of(tags_set(generated[n - 1].origins));
        let facts = read_wires(table, generated[n - 1].facts);
        lemma_store_insert_all_holds(
            store_after_generated(store, table, generated, n - 1),
            origin,
            facts,
            o,
            f,
        );
        if is_generated_fact(table, generated, n - 1, o, f) {
            let k = choose|k: int|
                0 <= k < n - 1 && members_of(tags_set((#[trigger] generated[k]).origins)) == o
                    && read_wires(table, generated[k].facts).contains(f);
            assert(0 <= k < n && members_of(tags_set(generated[k].origins)) == o);
        }
        if o == origin && facts.contains(f) {
            assert(members_of(tags_set(generated[n - 1].origins)) == o);
            assert(is_generated_fact(table, generated, n, o, f));
        }
        if is_generated_fact(table, generated, n, o, f) {
            let k = choose|k: int|
                0 <= k < n && members_of(tags_set((#[trigger] generated[k]).origins)) == o
                    && read_wires(table, generated[k].facts).contains(f);
            if k < n - 1 {
                assert(is_generated_fact(table, generated, n - 1, o, f));
            }
        }
    }
}

/// Taking in the facts of blocks leaves a valid store valid.
pub proof fn lemma_after_blocks_valid(
    store: Seq<StoreEntry>,
    blocks: Seq<WireBlockView>,
    map: Seq<KeyMapView>,
    n: int,
)
    requires
        store_valid(store),
    ensures
        store_valid(store_after_blocks(store, blocks, map, n)),
    decreases n,
{
    if n > 0 {
        lemma_after_blocks_valid(store, blocks, map, n - 1);
        lemma_store_insert_all_valid(
            store_after_blocks(store, blocks, map, n - 1),
            block_origin(n - 1),
            read_wires(restored_space(blocks, map, n - 1), blocks[n - 1].facts),
        );
    }
}

/// Putting in the facts of a snapshot, group by group, leaves a valid
/// store valid where the origin of each group is in order.
pub proof fn lemma_after_generated_valid(
    store: Seq<StoreEntry>,
    table: Seq<Name>,
    generated: Seq<GeneratedFactsView>,
    n: int,
)
    requires
        store_valid(store),
        forall|k: int|
            0 <= k < n ==> ascending(members_of(tags_set((#[trigger] generated[k]).origins))),
    ensures
        store_valid(store_after_generated(store, table, generated, n)),
    decreases n,
{
    if n > 0 {
        lemma_after_generated_valid(store, table, generated, n - 1);
        assert(ascending(members_of(tags_set(generated[n - 1].origins))));
        lemma_store_insert_all_valid(
            store_after_generated(store, table, generated, n - 1),
            members_of(tags_set(generated[n - 1].origins)),
            read_wires(table, generated[n - 1].facts),
        );
    }
}

/// The keys that have blocks, in the order of their entries.
pub open spec fn entry_keys(a: AuthorizerView) -> Seq<KeyView> {
    Seq::new(a.key_blocks.len(), |k: int| a.public_keys[a.key_blocks[k].0 as int])
}

/// The key map that the snapshot of `a` holds.
pub open spec fn written_key_map(a: AuthorizerView) -> Seq<KeyMapView> {
    Seq::new(
        a.key_blocks.len(),
        |k: int|
            KeyMapView {
                key: (
                    a.public_keys[a.key_blocks[k].0 as int].algorithm.spec_tag(),
                    a.public_keys[a.key_blocks[k].0 as int].bytes,
                ),
                block_ids: block_ids_on_wire(a.key_blocks[k].1),
            },
    )
}

/// Whether every block among the members of an origin has a number that
/// fits in 32 bits.
pub open spec fn origin_fits(members: Seq<usize>) -> bool {
    forall|i: int| 0 <= i < members.len() ==> members[i] == AUTHORIZER || members[i] <= u32::MAX
}

/// Whether the numbers of blocks fit in 32 bits.
pub open spec fn block_ids_fit(ids: Seq<usize>) -> bool {
    forall|t: int| 0 <= t < ids.len() ==> ids[t] <= u32::MAX
}

/// Whether every key of the list is a key that its backend accepts.
pub open spec fn keys_valid(keys: Seq<KeyView>) -> bool {
    forall|j: int| 0 <= j < keys.len() ==> PublicKey::valid_view(#[trigger] keys[j])
}

/// Whether block `i` of the token is as the authorizer's own records say:
/// its keys are keys, the outside party that signed it is the one that the
/// key map names for it, and its facts name symbols of its symbol space
/// only.
pub open spec fn block_well_formed(a: AuthorizerView, blocks: Seq<BlockView>, i: int) -> bool {
    &&& keys_valid(blocks[i].public_keys)
    &&& blocks[i].external_key == external_key_of(written_key_map(a), i as usize)
    &&& all_wires_known(
        restored_space(blocks_on_wire(Some(blocks)), written_key_map(a), i),
        blocks[i].facts,
    )
}

/// Whether the state of an authorizer hangs together: the key table holds
/// every key that has blocks, each of them once; the store of facts and the
/// records of blocks are valid; numbers of blocks fit in 32 bits; and the
/// blocks of the token, of which there is at least one where there is a
/// token, are as the records say.
pub open spec fn well_formed(a: AuthorizerView) -> bool {
    &&& store_valid(a.facts)
    &&& key_blocks_valid(a.key_blocks)
    &&& key_ids_known(a)
    &&& keys_valid(entry_keys(a))
    &&& entry_keys(a).no_duplicates()
    &&& forall|k: int| 0 <= k < a.key_blocks.len() ==> block_ids_fit((#[trigger] a.key_blocks[k]).1)
    &&& forall|k: int| 0 <= k < a.facts.len() ==> origin_fits((#[trigger] a.facts[k]).origin)
    &&& match a.blocks {
        Some(blocks) => blocks.len() > 0 && forall|i: int|
            0 <= i < blocks.len() ==> #[trigger] block_well_formed(a, blocks, i),
        None => true,
    }
}

/// Valid keys read back from their wire messages.
pub proof fn lemma_keys_read_back(keys: Seq<KeyView>)
    requires
        keys_valid(keys),
    ensures
        all_keys_decode(keys_on_wire(keys)),
        decoded_keys(keys_on_wire(keys)) == keys,
{
    let wire = keys_on_wire(keys);
    assert forall|i: int| 0 <= i < wire.len() implies PublicKey::decoded(
        (#[trigger] wire[i]).0,
        wire[i].1,
    ) == Some(keys[i]) by {
        assert(PublicKey::valid_view(keys[i]));
        PublicKey::lemma_proto_round_trip(keys[i]);
    }
    assert(decoded_keys(wire) =~= keys);
}

/// Numbers of blocks that fit in 32 bits read back from the wire.
pub proof fn lemma_block_ids_read_back(ids: Seq<usize>)
    requires
        block_ids_fit(ids),
    ensures
        block_ids_read(block_ids_on_wire(ids)) == ids,
{
    assert forall|t: int| 0 <= t < ids.len() implies block_ids_read(block_ids_on_wire(ids))[t]
        == ids[t] by {
        assert(ids[t] <= u32::MAX);
        assert(ids[t] as u32 as usize == ids[t]);
    }
    assert(block_ids_read(block_ids_on_wire(ids)) =~= ids);
}

/// What is written in a symbol space reads back in it.
pub proof fn lemma_wires_read_back(table: Seq<Name>, items: Seq<ItemView>, wires: Seq<WireView>)
    requires
        are_wires_of(table, items, wires),
    ensures
        all_wires_known(table, wires),
        read_wires(table, wires) == items,
{
    assert forall|k: int| 0 <= k < wires.len() implies crate::datalog::symbol::all_known(
        table,
        (#[trigger] wires[k]).symbols,
    ) && read_wires(table, wires)[k] == items[k] by {
        assert(crate::builder::is_wire_of(table, items[k], wires[k]));
        lemma_wire_is_stable(table, table, items[k], wires[k]);
    }
    assert(read_wires(table, wires) =~= items);
}

/// Among the first `n` entries of a key map whose keys differ from each
/// other, the blocks of the key of entry `k` are those of entry `k`.
pub proof fn lemma_last_blocks(map: Seq<KeyMapView>, keys: Seq<KeyView>, n: int, k: int)
    requires
        keys.len() == map.len(),
        keys.no_duplicates(),
        forall|j: int|
            0 <= j < map.len() ==> PublicKey::decoded((#[trigger] map[j]).key.0, map[j].key.1)
                == Some(keys[j]),
        0 <= k < n <= map.len(),
    ensures
        last_blocks(map.take(n), keys[k]) == block_ids_read(map[k].block_ids),
    decreases n,
{
    let taken = map.take(n);
    assert(taken.last() == map[n - 1]);
    assert(PublicKey::decoded(map[n - 1].key.0, map[n - 1].key.1) == Some(keys[n - 1]));
    if n - 1 == k {
    } else {
        assert(keys[n - 1] != keys[k]);
        assert(taken.drop_last() =~= map.take(n - 1));
        lemma_last_blocks(map, keys, n - 1, k);
    }
}

/// The snapshot's symbol table holds no name twice.
pub proof fn lemma_snapshot_table_distinct(a: AuthorizerView)
    ensures
        snapshot_table(a).no_duplicates(),
{
    lemma_interned_all_extends(Seq::<Name>::empty(), crate::builder::all_names(a.policies));
    lemma_interned_all_extends(policies_table(a), crate::builder::all_names(a.authorizer_block));
    lemma_interned_all_extends(own_block_table(a), store_names(a.facts));
}

/// Restoring the snapshot of an authorizer whose state hangs together
/// succeeds, and gives an authorizer with the same policies, the same
/// facts of its own, the same blocks of the token, the same keys with the
/// same blocks, and a store that holds under each origin the facts that
/// the store held under it, and besides them only the facts of the blocks
/// of the token, each under the origin of its block.
pub proof fn lemma_snapshot_restores(a: AuthorizerView, s: SnapshotView)
    requires
        is_snapshot_of(a, s),
        well_formed(a),
    ensures
        version_supported(s.version),
        restorable(s),
        restored(s).policies == a.policies,
        restored(s).authorizer_block == a.authorizer_block,
        restored(s).blocks == a.blocks,
        restored(s).symbols == snapshot_table(a),
        restored(s).public_keys == entry_keys(a),
        restored(s).key_blocks.len() == a.key_blocks.len(),
        forall|k: int|
            0 <= k < a.key_blocks.len() ==> (#[trigger] restored(s).key_blocks[k]) == (
                k as usize,
                a.key_blocks[k].1,
            ),
        forall|o: Seq<usize>, f: ItemView|
            #![trigger holds(restored(s).facts, o, f)]
            holds(restored(s).facts, o, f) <==> holds(a.facts, o, f) || is_block_fact(
                s.blocks,
                s.public_key_map,
                s.blocks.len() as int,
                o,
                f,
            ),
        store_valid(restored(s).facts),
{
    let table = snapshot_table(a);
    let map = s.public_key_map;
    let keys = entry_keys(a);

    // the symbols
    lemma_snapshot_table_distinct(a);
    lemma_interned_all_of_distinct(s.symbols);
    assert(restored_table(s) == table);

    // policies and the authorizer's own facts
    lemma_wires_read_back(table, a.policies, s.policies);
    lemma_wires_read_back(table, a.authorizer_block, s.authorizer_block.facts);

    // the key map
    assert(map =~= written_key_map(a));
    let wire_keys = key_map_keys(map);
    assert(wire_keys =~= keys_on_wire(keys));
    lemma_keys_read_back(keys);
    lemma_interned_all_of_distinct(keys);
    assert(restored_keys(map) == keys);
    assert forall|j: int| 0 <= j < map.len() implies PublicKey::decoded(
        (#[trigger] map[j]).key.0,
        map[j].key.1,
    ) == Some(keys[j]) by {
        assert(wire_keys[j] == map[j].key);
        assert(decoded_keys(wire_keys)[j] == keys[j]);
        assert(PublicKey::decoded(wire_keys[j].0, wire_keys[j].1) is Some);
    }
    assert(map.take(map.len() as int) =~= map);
    assert forall|k: int| 0 <= k < a.key_blocks.len() implies (#[trigger] restored(
        s,
    ).key_blocks[k]) == (k as usize, a.key_blocks[k].1) by {
        lemma_last_blocks(map, keys, map.len() as int, k);
        assert(block_ids_fit(a.key_blocks[k].1));
        lemma_block_ids_read_back(a.key_blocks[k].1);
        assert(restored_key_blocks(map)[k] == (k as usize, last_blocks(map, restored_keys(map)[k])));
    }

    // the blocks of the token
    assert(all_keys_decode(s.authorizer_block.public_keys));
    match a.blocks {
        Some(blocks) => {
            assert(s.blocks.len() == blocks.len());
            assert(s.blocks =~= blocks_on_wire(Some(blocks)));
            assert forall|i: int| 0 <= i < blocks.len() implies #[trigger] restored_block(
                s.blocks,
                map,
                i,
            ) == blocks[i] by {
                assert(block_well_formed(a, blocks, i));
                assert(s.blocks[i] == block_on_wire(blocks[i]));
                lemma_keys_read_back(blocks[i].public_keys);
            }
            assert forall|i: int|
                0 <= i < blocks.len() implies #[trigger] crate::token::authorizer::snapshot::block_readable(
                s.blocks,
                map,
                i,
            ) by {
                assert(block_well_formed(a, blocks, i));
                assert(s.blocks[i] == block_on_wire(blocks[i]));
                lemma_keys_read_back(blocks[i].public_keys);
            }
            let read = Seq::new(s.blocks.len(), |i: int| restored_block(s.blocks, map, i));
            assert(read =~= blocks);
            assert(restored(s).blocks == Some(read));
        },
        None => {
            assert(s.blocks.len() == 0);
        },
    }
    assert(blocks_readable(s.blocks, map, s.blocks.len() as int));

    // the facts of the store
    assert forall|k: int| 0 <= k < s.generated_facts.len() implies tags_valid(
        (#[trigger] s.generated_facts[k]).origins,
    ) && all_wires_known(table, s.generated_facts[k].facts) && members_of(
        tags_set(s.generated_facts[k].origins),
    ) == a.facts[k].origin && read_wires(table, s.generated_facts[k].facts)
        == a.facts[k].facts by {
        assert(origin_fits(a.facts[k].origin));
        assert(ascending(a.facts[k].origin));
        lemma_origin_round_trip(a.facts[k].origin);
        lemma_wires_read_back(table, a.facts[k].facts, s.generated_facts[k].facts);
    }
    assert(generated_readable(table, s.generated_facts, s.generated_facts.len() as int));

    let after_blocks = store_after_blocks(
        Seq::<StoreEntry>::empty(),
        s.blocks,
        map,
        s.blocks.len() as int,
    );
    lemma_after_blocks_valid(Seq::<StoreEntry>::empty(), s.blocks, map, s.blocks.len() as int);
    lemma_after_generated_valid(
        after_blocks,
        table,
        s.generated_facts,
        s.generated_facts.len() as int,
    );
    assert forall|o: Seq<usize>, f: ItemView|
        #![trigger holds(restored(s).facts, o, f)]
        holds(restored(s).facts, o, f) <==> holds(a.facts, o, f) || is_block_fact(
            s.blocks,
            map,
            s.blocks.len() as int,
            o,
            f,
        ) by {
        lemma_after_blocks_holds(
            Seq::<StoreEntry>::empty(),
            s.blocks,
            map,
            s.blocks.len() as int,
            o,
            f,
        );
        lemma_after_generated_holds(
            after_blocks,
            table,
            s.generated_facts,
            s.generated_facts.len() as int,
            o,
            f,
        );
        assert(!holds(Seq::<StoreEntry>::empty(), o, f));
        if holds(a.facts, o, f) {
            let k = choose|k: int|
                0 <= k < a.facts.len() && (#[trigger] a.facts[k]).origin == o
                    && a.facts[k].facts.contains(f);
            assert(members_of(tags_set(s.generated_facts[k].origins)) == o);
            assert(is_generated_fact(
                table,
                s.generated_facts,
                s.generated_facts.len() as int,
                o,
                f,
            ));
        }
        if is_generated_fact(table, s.generated_facts, s.generated_facts.len() as int, o, f) {
            let k = choose|k: int|
                0 <= k < s.generated_facts.len() && members_of(
                    tags_set((#[trigger] s.generated_facts[k]).origins),
                ) == o && read_wires(table, s.generated_facts[k].facts).contains(f);
            assert(a.facts[k].origin == o && a.facts[k].facts.contains(f));
        }
    }
}

/// Where the store of an authorizer already holds the facts of the blocks
/// of its token, each under the origin of its block, as it does after the
/// blocks were taken in, restoring its snapshot gives a store that holds
/// under every origin exactly the facts that the store held under it.
pub proof fn lemma_snapshot_restores_facts(a: AuthorizerView, s: SnapshotView)
    requires
        is_snapshot_of(a, s),
        well_formed(a),
        forall|o: Seq<usize>, f: ItemView|
            #![trigger holds(a.facts, o, f)]
            is_block_fact(s.blocks, s.public_key_map, s.blocks.len() as int, o, f) ==> holds(
                a.facts,
                o,
                f,
            ),
    ensures
        restorable(s),
        forall|o: Seq<usize>, f: ItemView|
            #![trigger holds(restored(s).facts, o, f)]
            holds(restored(s).facts, o, f) <==> holds(a.facts, o, f),
{
    lemma_snapshot_restores(a, s);
    assert forall|o: Seq<usize>, f: ItemView|
        #![trigger holds(restored(s).facts, o, f)]
        holds(restored(s).facts, o, f) <==> holds(a.facts, o, f) by {
        if is_block_fact(s.blocks, s.public_key_map, s.blocks.len() as int, o, f) {
            assert(holds(a.facts, o, f));
        }
    }
}

} // verus!
