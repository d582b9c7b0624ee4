use biscuit_auth::builder::{
    facts_from_wire, facts_to_wire, intern_names, resolve_symbols, BlockBuilder, Fact, Policy,
};
use biscuit_auth::crypto::{KeyPair, PublicKey};
use biscuit_auth::datalog::origin::{Origin, AUTHORIZER};
use biscuit_auth::datalog::symbol::SymbolTable;
use biscuit_auth::error::Format;
use biscuit_auth::format::schema;
use biscuit_auth::format::schema::Algorithm;
use biscuit_auth::token::block::{proto_block_to_token_block, token_block_to_proto_block};
use biscuit_auth::token::default_symbol_table;
use biscuit_auth::token::public_keys::PublicKeys;

fn key() -> PublicKey {
    KeyPair::new(Algorithm::Ed25519).public()
}

fn names(list: &[&str]) -> Vec<String> {
    list.iter().map(|s| s.to_string()).collect()
}

#[test]
fn inserting_a_key_twice_gives_the_same_number() {
    let (a, b, c) = (key(), key(), key());
    let mut table = PublicKeys::new();
    assert_eq!(table.current_offset(), 0);
    assert_eq!(table.insert(&a), 0);
    assert_eq!(table.current_offset(), 1);
    assert_eq!(table.insert(&b), 1);
    assert_eq!(table.current_offset(), 2);
    assert_eq!(table.insert(&a), 0);
    assert_eq!(table.current_offset(), 2);
    assert_eq!(table.insert(&b), 1);
    assert_eq!(table.current_offset(), 2);
    assert_eq!(table.insert(&c), 2);
    assert_eq!(table.current_offset(), 3);
    assert_eq!(table.keys, vec![a.clone(), b.clone(), c.clone()]);
    assert_eq!(table.get(&a), Some(0));
    assert_eq!(table.get(&c), Some(2));
    assert_eq!(table.get(&key()), None);
    assert_eq!(table.get_key(0), Some(&a));
    assert_eq!(table.get_key(2), Some(&c));
    assert_eq!(table.get_key(3), None);
    assert_eq!(table.get_key(u64::MAX), None);
}

#[test]
fn keys_of_several_algorithms_share_a_table() {
    let ed = KeyPair::new(Algorithm::Ed25519).public();
    let p = KeyPair::new(Algorithm::P256).public();
    let mut table = PublicKeys::new();
    assert_eq!(table.insert(&ed), 0);
    assert_eq!(table.insert(&p), 1);
    assert_eq!(table.insert(&ed), 0);
}

#[test]
fn split_then_extend_gives_the_table_back() {
    let keys: Vec<PublicKey> = (0..5).map(|_| key()).collect();
    for offset in 0..=5 {
        let mut a = PublicKeys::from(keys.clone());
        let b = a.split_at(offset);
        assert_eq!(a.keys, keys[..offset].to_vec());
        assert_eq!(b.keys, keys[offset..].to_vec());
        assert_eq!(a.current_offset(), offset);
        assert_eq!(b.current_offset(), 5 - offset);
        if offset < 5 {
            assert_eq!(b.get(&keys[offset]), Some(0));
        }
        a.extend(&b);
        assert_eq!(a.keys, keys);
    }
}

#[test]
fn extend_does_not_deduplicate() {
    let (a, b) = (key(), key());
    let mut table = PublicKeys::from(vec![a.clone(), b.clone()]);
    let other = PublicKeys::from(vec![b.clone(), a.clone()]);
    assert!(!table.is_disjoint(&other));
    table.extend(&other);
    assert_eq!(table.keys, vec![a.clone(), b.clone(), b.clone(), a.clone()]);
    assert_eq!(table.current_offset(), 4);
    assert_eq!(table.get(&b), Some(1));
}

#[test]
fn disjoint_tables_share_no_key() {
    let (a, b, c) = (key(), key(), key());
    let left = PublicKeys::from(vec![a.clone(), b.clone()]);
    let right = PublicKeys::from(vec![c.clone()]);
    assert!(left.is_disjoint(&right));
    assert!(right.is_disjoint(&left));
    assert!(left.is_disjoint(&PublicKeys::new()));
    assert!(PublicKeys::new().is_disjoint(&PublicKeys::new()));
    let overlapping = PublicKeys::from(vec![c, b]);
    assert!(!left.is_disjoint(&overlapping));
    assert!(!overlapping.is_disjoint(&left));
}

#[test]
fn origins_are_sets() {
    let mut a = Origin::new();
    a.insert(3);
    a.insert(AUTHORIZER);
    a.insert(1);
    a.insert(3);
    let mut b = Origin::new();
    b.insert(AUTHORIZER);
    b.insert(1);
    b.insert(3);
    assert_eq!(a, b);
    assert_eq!(a.len(), 3);
    assert_eq!((a.get(0), a.get(1), a.get(2)), (1, 3, usize::MAX));
    assert!(a.contains(1) && a.contains(3) && a.contains(AUTHORIZER));
    assert!(!a.contains(0));
    assert_eq!(a.clone(), a);
    b.insert(0);
    assert_ne!(a, b);
    assert_eq!(Origin::new().len(), 0);
}

#[test]
fn symbols_get_stable_numbers() {
    let mut table = default_symbol_table();
    assert_eq!(table.current_offset(), 0);
    assert_eq!(table.insert(&"read".to_string()), 0);
    assert_eq!(table.insert(&"write".to_string()), 1);
    assert_eq!(table.insert(&"read".to_string()), 0);
    assert_eq!(table.current_offset(), 2);
    assert_eq!(table.get(&"write".to_string()), Some(1));
    assert_eq!(table.get(&"other".to_string()), None);
    assert_eq!(table.get_symbol(1), Some(&"write".to_string()));
    assert_eq!(table.get_symbol(2), None);
    assert_eq!(table.strings(), names(&["read", "write"]));
    assert!(table.is_disjoint(&names(&["a", "b"])));
    assert!(!table.is_disjoint(&names(&["a", "read"])));

    assert_eq!(table.extend(&names(&["a", "b"])), Ok(()));
    assert_eq!(table.strings(), names(&["read", "write", "a", "b"]));
    assert_eq!(table.extend(&names(&["c", "read"])), Err(Format::SymbolTableOverlap));
    assert_eq!(table.extend(&names(&["c", "c"])), Err(Format::SymbolTableOverlap));
    assert_eq!(table.strings(), names(&["read", "write", "a", "b"]));

    let tail = table.split_at(1);
    assert_eq!(tail, names(&["write", "a", "b"]));
    assert_eq!(table.strings(), names(&["read"]));
    assert_eq!(default_symbol_table().strings(), Vec::<String>::new());
}

#[test]
fn names_become_numbers_and_back() {
    let mut table = SymbolTable::new();
    table.insert(&"zero".to_string());
    let ids = intern_names(&names(&["b", "zero", "a", "b"]), &mut table);
    assert_eq!(ids, vec![1, 0, 2, 1]);
    assert_eq!(table.strings(), names(&["zero", "b", "a"]));
    assert_eq!(resolve_symbols(&ids, &table), Ok(names(&["b", "zero", "a", "b"])));
    assert_eq!(resolve_symbols(&vec![0, 3, 7], &table), Err(Format::UnknownSymbol(3)));
    assert_eq!(resolve_symbols(&Vec::new(), &table), Ok(Vec::new()));
}

#[test]
fn facts_and_policies_change_symbol_space() {
    let fact = Fact { names: names(&["right", "file1", "read"]), body: vec![1, 2, 3] };
    let policy = Policy { names: names(&["read", "allow"]), body: vec![9] };
    let mut table = SymbolTable::new();
    let wire_fact = fact.convert(&mut table);
    let wire_policy = policy.convert(&mut table);
    assert_eq!(wire_fact, schema::Fact { symbols: vec![0, 1, 2], body: vec![1, 2, 3] });
    assert_eq!(wire_policy, schema::Policy { symbols: vec![2, 3], body: vec![9] });
    assert_eq!(table.strings(), names(&["right", "file1", "read", "allow"]));
    let back = Fact::convert_from(&wire_fact, &table).unwrap();
    assert!(back.same(&fact));
    let back = Policy::convert_from(&wire_policy, &table).unwrap();
    assert!(back.same(&policy));
    assert!(!back.same(&Policy { names: names(&["read", "allow"]), body: vec![8] }));
    assert!(!back.same(&Policy { names: names(&["read", "deny"]), body: vec![9] }));

    let short = SymbolTable::new();
    assert_eq!(Fact::convert_from(&wire_fact, &short).err(), Some(Format::UnknownSymbol(0)));
    let mut other = SymbolTable::new();
    other.insert(&"x".to_string());
    other.insert(&"y".to_string());
    other.insert(&"z".to_string());
    let moved = Policy::convert_from(&wire_policy, &other);
    assert_eq!(moved.err(), Some(Format::UnknownSymbol(3)));

    let facts = vec![fact.clone(), Fact { names: names(&["right", "file2"]), body: vec![] }];
    let mut table = SymbolTable::new();
    let wires = facts_to_wire(&facts, &mut table);
    assert_eq!(wires[0].symbols, vec![0, 1, 2]);
    assert_eq!(wires[1].symbols, vec![0, 3]);
    let read = facts_from_wire(&wires, &table).unwrap();
    assert!(read[0].same(&facts[0]) && read[1].same(&facts[1]));
    assert_eq!(
        facts_from_wire(&wires, &SymbolTable::new()).err(),
        Some(Format::UnknownSymbol(0))
    );
}

#[test]
fn a_built_block_brings_its_new_symbols() {
    let mut builder = BlockBuilder::new();
    builder.add_fact(Fact { names: names(&["read", "new1"]), body: vec![1] });
    builder.add_fact(Fact { names: names(&["new2", "new1"]), body: vec![2] });
    let mut symbols = SymbolTable::new();
    symbols.insert(&"read".to_string());
    symbols.insert(&"write".to_string());
    let block = builder.clone().build(symbols.clone_table());
    assert_eq!(block.symbols, names(&["new1", "new2"]));
    assert_eq!(block.facts[0].symbols, vec![0, 2]);
    assert_eq!(block.facts[1].symbols, vec![3, 2]);
    assert_eq!(block.public_keys.current_offset(), 0);
    assert!(block.external_key.is_none());

    assert_eq!(symbols.extend(&block.symbols), Ok(()));
    let back = BlockBuilder::convert_from(&block, &symbols).unwrap();
    assert_eq!(back.facts.len(), 2);
    assert!(back.facts[0].same(&builder.facts[0]));
    assert!(back.facts[1].same(&builder.facts[1]));
    assert_eq!(
        BlockBuilder::convert_from(&block, &SymbolTable::new()).err(),
        Some(Format::UnknownSymbol(0))
    );

    let wire = token_block_to_proto_block(&block);
    assert_eq!(wire.symbols, names(&["new1", "new2"]));
    assert_eq!(wire.facts, block.facts);
    assert_eq!(wire.public_keys, Vec::new());
    let again = proto_block_to_token_block(&wire, None).unwrap();
    assert_eq!(again.symbols, block.symbols);
    assert_eq!(again.facts, block.facts);
}

#[test]
fn a_block_with_an_unreadable_key_does_not_read() {
    let good = key();
    let wire = schema::Block {
        symbols: Vec::new(),
        facts: Vec::new(),
        public_keys: vec![good.to_proto(), schema::PublicKey { algorithm: 7, key: vec![1] }],
        external_signature: None,
    };
    assert!(matches!(
        proto_block_to_token_block(&wire, None),
        Err(Format::DeserializationError(_))
    ));
    let wire = schema::Block {
        symbols: Vec::new(),
        facts: Vec::new(),
        public_keys: vec![good.to_proto(), schema::PublicKey { algorithm: 0, key: vec![1] }],
        external_signature: None,
    };
    assert!(matches!(proto_block_to_token_block(&wire, None), Err(Format::InvalidKey(_))));
    let wire = schema::Block {
        symbols: Vec::new(),
        facts: Vec::new(),
        public_keys: vec![good.to_proto()],
        external_signature: None,
    };
    let block = proto_block_to_token_block(&wire, Some(good.clone())).unwrap();
    assert_eq!(block.public_keys.keys, vec![good.clone()]);
    assert_eq!(block.external_key, Some(good));
}
