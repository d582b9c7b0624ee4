use biscuit_auth::builder::{BlockBuilder, Fact, Policy};
use biscuit_auth::crypto::{KeyPair, PublicKey};
use biscuit_auth::datalog::origin::{Origin, AUTHORIZER};
use biscuit_auth::datalog::symbol::SymbolTable;
use biscuit_auth::error::{Format, Token};
use biscuit_auth::format::schema;
use biscuit_auth::format::schema::{Algorithm, Content};
use biscuit_auth::token::authorizer::snapshot::{
    authorizer_origin_to_proto_origin, proto_origin_to_authorizer_origin,
};
use biscuit_auth::token::authorizer::{Authorizer, FactSet, KeyBlocks};
use biscuit_auth::token::{MAX_SCHEMA_VERSION, MIN_SCHEMA_VERSION};

fn names(list: &[&str]) -> Vec<String> {
    list.iter().map(|s| s.to_string()).collect()
}

fn fact(list: &[&str], body: &[u8]) -> Fact {
    Fact { names: names(list), body: body.to_vec() }
}

fn empty_block() -> schema::Block {
    schema::Block {
        symbols: Vec::new(),
        facts: Vec::new(),
        public_keys: Vec::new(),
        external_signature: None,
    }
}

fn empty_snapshot(version: Option<u32>) -> schema::AuthorizerSnapshot {
    schema::AuthorizerSnapshot {
        version,
        symbols: Vec::new(),
        blocks: Vec::new(),
        authorizer_block: empty_block(),
        generated_facts: Vec::new(),
        policies: Vec::new(),
        public_key_map: Vec::new(),
    }
}

fn tag(block: u32) -> schema::Origin {
    schema::Origin { content: Some(Content::Origin(block)) }
}

fn authorizer_tag() -> schema::Origin {
    schema::Origin { content: Some(Content::Authorizer(true)) }
}

fn origin(members: &[usize]) -> Origin {
    let mut o = Origin::new();
    for m in members {
        o.insert(*m);
    }
    o
}

fn same_facts(a: &[Fact], b: &[Fact]) -> bool {
    a.len() == b.len() && a.iter().zip(b.iter()).all(|(x, y)| x.same(y))
}

fn same_store(a: &FactSet, b: &FactSet) -> bool {
    a.inner.len() == b.inner.len()
        && a.inner.iter().zip(b.inner.iter()).all(|(x, y)| {
            x.origin == y.origin && same_facts(&x.facts, &y.facts)
        })
}

#[test]
fn the_supported_versions() {
    assert_eq!(MIN_SCHEMA_VERSION, 3);
    assert_eq!(MAX_SCHEMA_VERSION, 4);
}

#[test]
fn a_version_out_of_range_is_refused_with_the_bounds() {
    for (version, actual) in [(None, 0u32), (Some(0), 0), (Some(2), 2), (Some(5), 5), (Some(u32::MAX), u32::MAX)] {
        let res = Authorizer::from_snapshot(empty_snapshot(version));
        assert_eq!(
            res.err(),
            Some(Token::Format(Format::Version { minimum: 3, maximum: 4, actual }))
        );
    }
    assert!(Authorizer::from_snapshot(empty_snapshot(Some(3))).is_ok());
    assert!(Authorizer::from_snapshot(empty_snapshot(Some(4))).is_ok());
}

#[test]
fn the_version_is_checked_before_anything_else() {
    let mut snapshot = empty_snapshot(Some(9));
    snapshot.public_key_map.push(schema::KeyMap {
        key: schema::PublicKey { algorithm: 44, key: vec![] },
        block_ids: vec![0],
    });
    assert_eq!(
        Authorizer::from_snapshot(snapshot).err(),
        Some(Token::Format(Format::Version { minimum: 3, maximum: 4, actual: 9 }))
    );
}

#[test]
fn an_empty_snapshot_restores_to_an_empty_authorizer() {
    let a = Authorizer::from_snapshot(empty_snapshot(Some(4))).unwrap();
    assert!(a.blocks.is_none());
    assert!(a.policies.is_empty());
    assert!(a.facts.inner.is_empty());
    assert!(a.authorizer_block_builder.facts.is_empty());
    assert!(a.public_key_to_block_id.entries.is_empty());
    assert_eq!(a.symbols.current_offset(), 0);
    let s = Authorizer::new().snapshot().unwrap();
    assert_eq!(s, empty_snapshot(Some(4)));
}

#[test]
fn origin_tags_in_ascending_order() {
    let tags = authorizer_origin_to_proto_origin(&origin(&[5, AUTHORIZER, 0]));
    assert_eq!(tags, vec![tag(0), tag(5), authorizer_tag()]);
    assert_eq!(authorizer_origin_to_proto_origin(&Origin::new()), Vec::new());
    assert_eq!(authorizer_origin_to_proto_origin(&origin(&[AUTHORIZER])), vec![authorizer_tag()]);
    assert_eq!(
        authorizer_origin_to_proto_origin(&origin(&[u32::MAX as usize])),
        vec![tag(u32::MAX)]
    );
}

#[test]
fn origins_read_back_from_their_tags() {
    let o = origin(&[0, 2, 7, AUTHORIZER]);
    let tags = authorizer_origin_to_proto_origin(&o);
    assert_eq!(proto_origin_to_authorizer_origin(&tags), Ok(o));
    assert_eq!(
        proto_origin_to_authorizer_origin(&[tag(3), authorizer_tag(), tag(1), tag(3)]),
        Ok(origin(&[1, 3, AUTHORIZER]))
    );
    assert_eq!(proto_origin_to_authorizer_origin(&[]), Ok(Origin::new()));
}

#[test]
fn a_tag_of_another_shape_is_an_invalid_origin() {
    let invalid = Err(Format::DeserializationError("invalid origin".to_string()));
    assert_eq!(
        proto_origin_to_authorizer_origin(&[tag(1), schema::Origin { content: None }]),
        invalid
    );
    assert_eq!(
        proto_origin_to_authorizer_origin(&[schema::Origin {
            content: Some(Content::Authorizer(false))
        }]),
        invalid
    );
    let mut snapshot = empty_snapshot(Some(4));
    snapshot.generated_facts.push(schema::GeneratedFacts {
        origins: vec![schema::Origin { content: None }],
        facts: Vec::new(),
    });
    assert_eq!(
        Authorizer::from_snapshot(snapshot).err(),
        Some(Token::Format(Format::DeserializationError("invalid origin".to_string())))
    );
}

fn sample_authorizer(external: &PublicKey) -> Authorizer {
    let mut a = Authorizer::new();
    a.policies.push(Policy { names: names(&["allow", "read"]), body: vec![1] });
    a.policies.push(Policy { names: names(&["deny"]), body: vec![2, 2] });
    a.authorizer_block_builder.add_fact(fact(&["time", "now"], &[3]));
    a.authorizer_block_builder.add_fact(fact(&["read"], &[4]));

    // block 0 was written by the issuer of the token
    let mut builder = BlockBuilder::new();
    builder.add_fact(fact(&["right", "file1", "read"], &[10]));
    builder.add_fact(fact(&["right", "file2", "read"], &[11]));
    let block0 = builder.build(SymbolTable::new());
    let mut token_symbols = SymbolTable::new();
    assert_eq!(token_symbols.extend(&block0.symbols), Ok(()));

    // block 1 was written by an outside party, in a symbol space of its own
    let mut builder = BlockBuilder::new();
    builder.add_fact(fact(&["group", "admin"], &[20]));
    let mut block1 = builder.build(SymbolTable::new());
    block1.external_key = Some(external.clone());

    // block 2 was written by the holder of the token
    let mut builder = BlockBuilder::new();
    builder.add_fact(fact(&["read", "limit"], &[30]));
    let block2 = builder.build(token_symbols.clone_table());
    assert_eq!(block2.symbols, names(&["limit"]));
    let mut after = token_symbols.clone_table();
    assert_eq!(after.extend(&block2.symbols), Ok(()));

    assert_eq!(a.add_block(&block0, 0, &token_symbols), Ok(()));
    assert_eq!(a.add_block(&block1, 1, &token_symbols), Ok(()));
    assert_eq!(a.add_block(&block2, 2, &after), Ok(()));
    a.blocks = Some(vec![block0, block1, block2]);

    let key_id = a.symbols.public_keys.insert(external);
    a.public_key_to_block_id.insert(key_id as usize, vec![1]);

    a.facts.insert(&origin(&[AUTHORIZER]), fact(&["time", "now"], &[3]));
    a.facts.insert(&origin(&[0, AUTHORIZER]), fact(&["derived", "file1"], &[40]));
    a.facts.insert(&origin(&[0, AUTHORIZER]), fact(&["derived", "file2"], &[41]));
    a.facts.insert(&origin(&[0, AUTHORIZER]), fact(&["derived", "file1"], &[40]));
    a.facts.insert(&origin(&[1, 2]), fact(&["mixed"], &[]));
    a
}

#[test]
fn the_sample_authorizer_holds_facts_by_origin() {
    let external = KeyPair::new(Algorithm::Ed25519).public();
    let a = sample_authorizer(&external);
    let origins: Vec<Origin> = a.facts.inner.iter().map(|e| e.origin.clone()).collect();
    assert_eq!(
        origins,
        vec![
            origin(&[0]),
            origin(&[1]),
            origin(&[2]),
            origin(&[AUTHORIZER]),
            origin(&[0, AUTHORIZER]),
            origin(&[1, 2]),
        ]
    );
    let counts: Vec<usize> = a.facts.inner.iter().map(|e| e.facts.len()).collect();
    assert_eq!(counts, vec![2, 1, 1, 1, 2, 1]);
    assert!(a.facts.inner[1].facts[0].same(&fact(&["group", "admin"], &[20])));
    assert!(a.facts.inner[2].facts[0].same(&fact(&["read", "limit"], &[30])));
    assert_eq!(a.facts.find(&origin(&[0, AUTHORIZER])), Some(4));
    assert_eq!(a.facts.find(&origin(&[9])), None);
}

#[test]
fn a_snapshot_has_its_own_symbol_table() {
    let external = KeyPair::new(Algorithm::Ed25519).public();
    let a = sample_authorizer(&external);
    let s = a.snapshot().unwrap();
    assert_eq!(s.version, Some(4));
    assert_eq!(
        s.symbols,
        names(&[
            "allow", "read", "deny", "time", "now", "right", "file1", "file2", "group", "admin",
            "limit", "derived", "mixed",
        ])
    );
    assert_eq!(
        s.policies,
        vec![
            schema::Policy { symbols: vec![0, 1], body: vec![1] },
            schema::Policy { symbols: vec![2], body: vec![2, 2] },
        ]
    );
    assert_eq!(s.authorizer_block.symbols, names(&["time", "now"]));
    assert_eq!(
        s.authorizer_block.facts,
        vec![
            schema::Fact { symbols: vec![3, 4], body: vec![3] },
            schema::Fact { symbols: vec![1], body: vec![4] },
        ]
    );
    assert_eq!(s.blocks.len(), 3);
    assert_eq!(s.blocks[0].symbols, names(&["right", "file1", "read", "file2"]));
    assert_eq!(s.blocks[1].symbols, names(&["group", "admin"]));
    assert_eq!(s.blocks[1].facts, vec![schema::Fact { symbols: vec![0, 1], body: vec![20] }]);
    assert_eq!(s.blocks[2].symbols, names(&["limit"]));
    assert_eq!(s.blocks[2].facts, vec![schema::Fact { symbols: vec![2, 4], body: vec![30] }]);
    assert_eq!(s.generated_facts.len(), 6);
    assert_eq!(s.generated_facts[0].origins, vec![tag(0)]);
    assert_eq!(
        s.generated_facts[0].facts,
        vec![
            schema::Fact { symbols: vec![5, 6, 1], body: vec![10] },
            schema::Fact { symbols: vec![5, 7, 1], body: vec![11] },
        ]
    );
    assert_eq!(s.generated_facts[3].origins, vec![authorizer_tag()]);
    assert_eq!(s.generated_facts[4].origins, vec![tag(0), authorizer_tag()]);
    assert_eq!(s.generated_facts[5].origins, vec![tag(1), tag(2)]);
    assert_eq!(
        s.public_key_map,
        vec![schema::KeyMap { key: external.to_proto(), block_ids: vec![1] }]
    );
}

#[test]
fn restoring_a_snapshot_gives_the_same_authorizer() {
    let external = KeyPair::new(Algorithm::P256).public();
    let a = sample_authorizer(&external);
    let s = a.snapshot().unwrap();
    let b = Authorizer::from_snapshot(s.clone()).unwrap();

    assert_eq!(b.policies.len(), 2);
    assert!(b.policies.iter().zip(a.policies.iter()).all(|(x, y)| x.same(y)));
    assert!(same_facts(&b.authorizer_block_builder.facts, &a.authorizer_block_builder.facts));
    assert!(same_store(&a.facts, &b.facts));
    assert_eq!(b.symbols.strings(), s.symbols);
    assert_eq!(b.symbols.public_keys.keys, vec![external.clone()]);
    assert_eq!(b.public_key_to_block_id.entries, vec![(0usize, vec![1usize])]);
    let (restored, before) = (b.blocks.as_ref().unwrap(), a.blocks.as_ref().unwrap());
    assert_eq!(restored.len(), 3);
    for i in 0..3 {
        assert_eq!(restored[i].symbols, before[i].symbols);
        assert_eq!(restored[i].facts, before[i].facts);
        assert_eq!(restored[i].external_key, before[i].external_key);
        assert_eq!(restored[i].public_keys.keys, before[i].public_keys.keys);
    }
    assert_eq!(restored[1].external_key, Some(external));

    // a second round gives the same snapshot
    assert_eq!(b.snapshot().unwrap(), s);
}

#[test]
fn the_symbols_of_an_outside_block_stay_out_of_the_shared_space() {
    let external = KeyPair::new(Algorithm::Ed25519).public();
    let mut snapshot = empty_snapshot(Some(4));
    snapshot.blocks.push(schema::Block {
        symbols: names(&["a"]),
        facts: vec![schema::Fact { symbols: vec![0], body: vec![] }],
        public_keys: Vec::new(),
        external_signature: None,
    });
    snapshot.blocks.push(schema::Block {
        symbols: names(&["shadow", "b"]),
        facts: vec![schema::Fact { symbols: vec![1], body: vec![] }],
        public_keys: Vec::new(),
        external_signature: None,
    });
    snapshot.blocks.push(schema::Block {
        symbols: names(&["c"]),
        facts: vec![schema::Fact { symbols: vec![1], body: vec![] }],
        public_keys: Vec::new(),
        external_signature: None,
    });

    // with block 1 a block of the token, its symbols are numbers 1 and 2
    let a = Authorizer::from_snapshot(snapshot.clone()).unwrap();
    assert!(a.facts.inner[1].facts[0].same(&fact(&["shadow"], &[])));
    assert!(a.facts.inner[2].facts[0].same(&fact(&["shadow"], &[])));

    // with block 1 signed by an outside party, they are not
    snapshot.public_key_map.push(schema::KeyMap { key: external.to_proto(), block_ids: vec![1] });
    let a = Authorizer::from_snapshot(snapshot.clone()).unwrap();
    assert!(a.facts.inner[1].facts[0].same(&fact(&["b"], &[])));
    assert!(a.facts.inner[2].facts[0].same(&fact(&["c"], &[])));
    assert_eq!(a.blocks.as_ref().unwrap()[1].external_key, Some(external.clone()));
    assert_eq!(a.blocks.as_ref().unwrap()[0].external_key, None);
    assert_eq!(a.public_key_to_block_id.entries, vec![(0usize, vec![1usize])]);

    // and a later block cannot name them
    snapshot.blocks[2].facts[0].symbols = vec![2];
    assert_eq!(
        Authorizer::from_snapshot(snapshot).err(),
        Some(Token::Format(Format::UnknownSymbol(2)))
    );
}

#[test]
fn the_key_map_is_rebuilt() {
    let k1 = KeyPair::new(Algorithm::Ed25519).public();
    let k2 = KeyPair::new(Algorithm::P256).public();
    let mut snapshot = empty_snapshot(Some(3));
    for _ in 0..4 {
        snapshot.blocks.push(empty_block());
    }
    snapshot.public_key_map = vec![
        schema::KeyMap { key: k1.to_proto(), block_ids: vec![1] },
        schema::KeyMap { key: k2.to_proto(), block_ids: vec![2, 3] },
        schema::KeyMap { key: k1.to_proto(), block_ids: vec![3] },
    ];
    let a = Authorizer::from_snapshot(snapshot).unwrap();
    assert_eq!(a.symbols.public_keys.keys, vec![k1.clone(), k2.clone()]);
    assert_eq!(
        a.public_key_to_block_id.entries,
        vec![(0usize, vec![3usize]), (1usize, vec![2usize, 3usize])]
    );
    let blocks = a.blocks.unwrap();
    assert_eq!(blocks[0].external_key, None);
    assert_eq!(blocks[1].external_key, Some(k1.clone()));
    assert_eq!(blocks[2].external_key, Some(k2));
    assert_eq!(blocks[3].external_key, Some(k1));
}

#[test]
fn what_does_not_read_is_an_error() {
    let mut snapshot = empty_snapshot(Some(4));
    snapshot.public_key_map.push(schema::KeyMap {
        key: schema::PublicKey { algorithm: 2, key: vec![0; 32] },
        block_ids: vec![],
    });
    assert_eq!(
        Authorizer::from_snapshot(snapshot).err(),
        Some(Token::Format(Format::DeserializationError(
            "deserialization error: unexpected key algorithm 2".to_string()
        )))
    );

    let mut snapshot = empty_snapshot(Some(4));
    snapshot.public_key_map.push(schema::KeyMap {
        key: schema::PublicKey { algorithm: 0, key: vec![0; 3] },
        block_ids: vec![],
    });
    assert!(matches!(
        Authorizer::from_snapshot(snapshot),
        Err(Token::Format(Format::InvalidKey(_)))
    ));

    let mut snapshot = empty_snapshot(Some(4));
    snapshot.symbols = names(&["a", "b"]);
    snapshot.policies.push(schema::Policy { symbols: vec![1, 2], body: vec![] });
    assert_eq!(
        Authorizer::from_snapshot(snapshot).err(),
        Some(Token::Format(Format::UnknownSymbol(2)))
    );

    let mut snapshot = empty_snapshot(Some(4));
    snapshot.authorizer_block.facts.push(schema::Fact { symbols: vec![0], body: vec![] });
    assert_eq!(
        Authorizer::from_snapshot(snapshot).err(),
        Some(Token::Format(Format::UnknownSymbol(0)))
    );

    let mut snapshot = empty_snapshot(Some(4));
    snapshot.symbols = names(&["a"]);
    snapshot.generated_facts.push(schema::GeneratedFacts {
        origins: vec![tag(0)],
        facts: vec![
            schema::Fact { symbols: vec![0], body: vec![] },
            schema::Fact { symbols: vec![5], body: vec![] },
        ],
    });
    assert_eq!(
        Authorizer::from_snapshot(snapshot).err(),
        Some(Token::Format(Format::UnknownSymbol(5)))
    );
}

#[test]
fn repeated_symbols_of_a_snapshot_count_once() {
    let mut snapshot = empty_snapshot(Some(4));
    snapshot.symbols = names(&["a", "b", "a", "c"]);
    snapshot.policies.push(schema::Policy { symbols: vec![2], body: vec![] });
    let a = Authorizer::from_snapshot(snapshot).unwrap();
    assert_eq!(a.symbols.strings(), names(&["a", "b", "c"]));
    assert!(a.policies[0].same(&Policy { names: names(&["c"]), body: vec![] }));
}

#[test]
fn a_key_that_the_table_does_not_hold_cannot_be_written() {
    let mut a = Authorizer::new();
    a.public_key_to_block_id.insert(0, vec![1]);
    assert_eq!(a.snapshot().err(), Some(Format::UnknownExternalKey));
    let key = KeyPair::new(Algorithm::Ed25519).public();
    a.symbols.public_keys.insert(&key);
    let s = a.snapshot().unwrap();
    assert_eq!(s.public_key_map, vec![schema::KeyMap { key: key.to_proto(), block_ids: vec![1] }]);
    a.public_key_to_block_id.insert(1, vec![]);
    assert_eq!(a.snapshot().err(), Some(Format::UnknownExternalKey));
}

#[test]
fn a_restored_store_has_one_entry_for_each_origin() {
    let mut snapshot = empty_snapshot(Some(4));
    snapshot.symbols = names(&["a", "b"]);
    snapshot.blocks.push(schema::Block {
        symbols: names(&["a"]),
        facts: vec![schema::Fact { symbols: vec![0], body: vec![1] }],
        public_keys: Vec::new(),
        external_signature: None,
    });
    snapshot.generated_facts = vec![
        schema::GeneratedFacts {
            origins: vec![tag(0)],
            facts: vec![
                schema::Fact { symbols: vec![0], body: vec![1] },
                schema::Fact { symbols: vec![1], body: vec![2] },
            ],
        },
        schema::GeneratedFacts {
            origins: vec![authorizer_tag(), tag(0)],
            facts: vec![schema::Fact { symbols: vec![1], body: vec![3] }],
        },
        schema::GeneratedFacts {
            origins: vec![tag(0), tag(0)],
            facts: vec![schema::Fact { symbols: vec![1], body: vec![2] }],
        },
        schema::GeneratedFacts {
            origins: vec![tag(0), authorizer_tag()],
            facts: vec![schema::Fact { symbols: vec![1], body: vec![3] }],
        },
    ];
    let a = Authorizer::from_snapshot(snapshot).unwrap();
    let origins: Vec<Origin> = a.facts.inner.iter().map(|e| e.origin.clone()).collect();
    assert_eq!(origins, vec![origin(&[0]), origin(&[0, AUTHORIZER])]);
    assert!(same_facts(&a.facts.inner[0].facts, &[fact(&["a"], &[1]), fact(&["b"], &[2])]));
    assert!(same_facts(&a.facts.inner[1].facts, &[fact(&["b"], &[3])]));
}

#[test]
fn key_blocks_keep_one_entry_for_each_key() {
    let mut map = KeyBlocks::new();
    map.insert(4, vec![1]);
    map.insert(2, vec![2, 3]);
    map.insert(4, vec![5]);
    assert_eq!(map.entries, vec![(4usize, vec![5usize]), (2usize, vec![2usize, 3usize])]);
    assert_eq!(map.find(2), Some(1));
    assert_eq!(map.find(3), None);
}

#[test]
fn a_block_that_names_an_unknown_symbol_is_not_taken_in() {
    let mut a = Authorizer::new();
    let mut builder = BlockBuilder::new();
    builder.add_fact(fact(&["x"], &[]));
    let block = builder.build(SymbolTable::new());
    assert_eq!(a.add_block(&block, 0, &SymbolTable::new()), Err(Format::UnknownSymbol(0)));
    assert!(a.facts.inner.is_empty());
    let mut symbols = SymbolTable::new();
    symbols.insert(&"y".to_string());
    assert_eq!(a.add_block(&block, 0, &symbols), Ok(()));
    assert!(a.facts.inner[0].facts[0].same(&fact(&["y"], &[])));
    assert_eq!(a.facts.inner[0].origin, origin(&[0]));
}
