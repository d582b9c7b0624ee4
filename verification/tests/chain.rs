use biscuit_auth::crypto::chain::{sign, verify_block_signature, verify_chain, Block, ExternalSignature};
use biscuit_auth::crypto::{KeyPair, Signature};
use biscuit_auth::error;
use biscuit_auth::error::Format;
use biscuit_auth::format::schema::Algorithm;

fn block(signer: &KeyPair, next: &KeyPair, payload: &[u8]) -> Block {
    let next_key = next.public();
    let signature = sign(signer, &next_key, payload).unwrap();
    Block { data: payload.to_vec(), next_key, signature, external_signature: None }
}

fn is_invalid_signature(res: &Result<(), Format>) -> bool {
    matches!(res, Err(Format::Signature(error::Signature::InvalidSignature(_))))
}

#[test]
fn two_blocks_verify_against_the_root_key_only() {
    let k0 = KeyPair::new(Algorithm::Ed25519);
    let k1 = KeyPair::new(Algorithm::Ed25519);
    let k2 = KeyPair::new(Algorithm::Ed25519);
    let block0 = block(&k0, &k1, b"p0");
    let block1 = block(&k1, &k2, b"p1");
    let chain = vec![block0, block1];
    assert_eq!(verify_chain(&k0.public(), &chain), Ok(()));
    assert!(is_invalid_signature(&verify_chain(&k1.public(), &chain)));
    assert!(is_invalid_signature(&verify_chain(&k2.public(), &chain)));
    let stranger = KeyPair::new(Algorithm::Ed25519);
    assert!(is_invalid_signature(&verify_chain(&stranger.public(), &chain)));
    let p256_stranger = KeyPair::new(Algorithm::P256);
    assert!(verify_chain(&p256_stranger.public(), &chain).is_err());
}

#[test]
fn the_signature_covers_payload_tag_and_next_key() {
    let signer = KeyPair::new(Algorithm::Ed25519);
    let next = KeyPair::new(Algorithm::P256).public();
    let signature = sign(&signer, &next, b"payload").unwrap();
    let mut material = b"payload".to_vec();
    material.extend_from_slice(&[1, 0, 0, 0]);
    material.extend_from_slice(&next.to_bytes());
    assert_eq!(signer.public().verify_signature(&material, &signature), Ok(()));
    assert_eq!(signer.sign(&material).unwrap(), signature);

    let next = KeyPair::new(Algorithm::Ed25519).public();
    let signature = sign(&signer, &next, b"").unwrap();
    let mut material = vec![0u8, 0, 0, 0];
    material.extend_from_slice(&next.to_bytes());
    assert_eq!(signer.public().verify_signature(&material, &signature), Ok(()));
}

#[test]
fn an_empty_chain_is_valid() {
    let root = KeyPair::new(Algorithm::Ed25519);
    assert_eq!(verify_chain(&root.public(), &Vec::new()), Ok(()));
}

#[test]
fn disturbing_a_chain_is_detected() {
    let keys: Vec<KeyPair> = (0..5).map(|_| KeyPair::new(Algorithm::Ed25519)).collect();
    let payloads: [&[u8]; 4] = [b"a", b"b", b"c", b"d"];
    let make = || -> Vec<Block> {
        (0..4).map(|i| block(&keys[i], &keys[i + 1], payloads[i])).collect()
    };
    let root = keys[0].public();
    assert_eq!(verify_chain(&root, &make()), Ok(()));

    // every prefix of a valid chain is valid
    for n in 0..4 {
        let mut prefix = make();
        prefix.truncate(n);
        assert_eq!(verify_chain(&root, &prefix), Ok(()));
    }

    // reordering
    let mut reordered = make();
    reordered.swap(1, 2);
    assert!(is_invalid_signature(&verify_chain(&root, &reordered)));
    assert_eq!(verify_block_signature(&reordered[0], &root), Ok(()));
    assert!(is_invalid_signature(&verify_block_signature(
        &reordered[1],
        &reordered[0].next_key
    )));

    // duplicating
    let mut duplicated = make();
    let copy = duplicated[1].clone();
    duplicated.insert(2, copy);
    assert!(is_invalid_signature(&verify_chain(&root, &duplicated)));
    assert_eq!(verify_block_signature(&duplicated[1], &duplicated[0].next_key), Ok(()));
    assert!(is_invalid_signature(&verify_block_signature(
        &duplicated[2],
        &duplicated[1].next_key
    )));

    // deleting
    let mut deleted = make();
    deleted.remove(1);
    assert!(is_invalid_signature(&verify_chain(&root, &deleted)));
    let mut without_first = make();
    without_first.remove(0);
    assert!(is_invalid_signature(&verify_chain(&root, &without_first)));

    // a changed payload invalidates that block and no other
    let mut mutated = make();
    mutated[2].data[0] ^= 1;
    assert!(is_invalid_signature(&verify_chain(&root, &mutated)));
    assert_eq!(verify_block_signature(&mutated[0], &root), Ok(()));
    assert_eq!(verify_block_signature(&mutated[1], &mutated[0].next_key), Ok(()));
    assert!(is_invalid_signature(&verify_block_signature(&mutated[2], &mutated[1].next_key)));
    assert_eq!(verify_block_signature(&mutated[3], &mutated[2].next_key), Ok(()));

    // a changed next key invalidates the block that names it
    let mut renamed = make();
    renamed[1].next_key = keys[4].public();
    assert!(is_invalid_signature(&verify_block_signature(&renamed[1], &renamed[0].next_key)));
}

#[test]
fn a_malformed_signature_is_a_deserialization_error() {
    let k0 = KeyPair::new(Algorithm::Ed25519);
    let k1 = KeyPair::new(Algorithm::Ed25519);
    let mut first = block(&k0, &k1, b"p0");
    first.signature = Signature::from_bytes(&[7u8; 10]);
    assert!(matches!(
        verify_chain(&k0.public(), &vec![first]),
        Err(Format::SignatureDeserializationError(_))
    ));
}

#[test]
fn chains_may_mix_algorithms() {
    let k0 = KeyPair::new(Algorithm::P256);
    let k1 = KeyPair::new(Algorithm::Ed25519);
    let k2 = KeyPair::new(Algorithm::P256);
    let chain = vec![block(&k0, &k1, b"p0"), block(&k1, &k2, b"p1")];
    assert_eq!(verify_chain(&k0.public(), &chain), Ok(()));
    assert!(verify_chain(&k1.public(), &chain).is_err());
}

#[test]
fn an_external_signature_is_checked_against_the_previous_key() {
    let k0 = KeyPair::new(Algorithm::Ed25519);
    let k1 = KeyPair::new(Algorithm::Ed25519);
    let outside = KeyPair::new(Algorithm::Ed25519);
    let mut material = b"p0".to_vec();
    material.extend_from_slice(&[0, 0, 0, 0]);
    material.extend_from_slice(&k0.public().to_bytes());
    let external = ExternalSignature {
        public_key: outside.public(),
        signature: outside.sign(&material).unwrap(),
    };
    let mut first = block(&k0, &k1, b"p0");
    first.external_signature = Some(external.clone());
    assert_eq!(verify_block_signature(&first, &k0.public()), Ok(()));

    let mut other_signer = first.clone();
    other_signer.external_signature = Some(ExternalSignature {
        public_key: KeyPair::new(Algorithm::Ed25519).public(),
        signature: external.signature.clone(),
    });
    assert!(is_invalid_signature(&verify_block_signature(&other_signer, &k0.public())));

    let mut malformed = first.clone();
    malformed.external_signature = Some(ExternalSignature {
        public_key: outside.public(),
        signature: Signature::from_bytes(&[]),
    });
    assert!(matches!(
        verify_block_signature(&malformed, &k0.public()),
        Err(Format::SignatureDeserializationError(_))
    ));
}
