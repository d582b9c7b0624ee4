use biscuit_auth::builder::Fact;
use biscuit_auth::crypto::chain::{sign, verify_block_signature, verify_chain, Block, ExternalSignature};
use biscuit_auth::crypto::{KeyPair, PublicKey, Signature};
use biscuit_auth::error;
use biscuit_auth::error::{Format, Token};
use biscuit_auth::format::schema;
use biscuit_auth::format::schema::Algorithm;
use biscuit_auth::token::third_party::Request;

fn is_invalid_signature(res: &Result<(), Format>) -> bool {
    matches!(res, Err(Format::Signature(error::Signature::InvalidSignature(_))))
}

fn request_for(previous: &PublicKey, keys: &[PublicKey]) -> schema::ThirdPartyBlockRequest {
    schema::ThirdPartyBlockRequest {
        previous_key: previous.to_proto(),
        public_keys: keys.iter().map(|k| k.to_proto()).collect(),
    }
}

fn external(contents: &schema::ThirdPartyBlockContents) -> ExternalSignature {
    ExternalSignature {
        public_key: PublicKey::from_proto(&contents.external_signature.public_key).unwrap(),
        signature: Signature::from_bytes(&contents.external_signature.signature),
    }
}

#[test]
fn a_request_reads_its_keys() {
    let previous = KeyPair::new(Algorithm::Ed25519).public();
    let a = KeyPair::new(Algorithm::Ed25519).public();
    let b = KeyPair::new(Algorithm::P256).public();
    let message = request_for(&previous, &[a.clone(), b.clone(), a.clone()]);
    let request = Request::deserialize(&message).unwrap();
    assert_eq!(request.previous_key(), &previous);
    assert_eq!(request.public_keys().keys, vec![a.clone(), b.clone()]);
    assert_eq!(request.public_keys().get(&b), Some(1));
    let block = request.build_block();
    assert!(block.facts.is_empty() && block.symbols.is_empty());
}

#[test]
fn a_request_with_an_invalid_key_does_not_read() {
    let previous = KeyPair::new(Algorithm::Ed25519).public();
    let mut message = request_for(&previous, &[]);
    message.previous_key.algorithm = 9;
    assert_eq!(
        Request::deserialize(&message).err(),
        Some(Token::Format(Format::DeserializationError(
            "deserialization error: unexpected key algorithm 9".to_string()
        )))
    );
    let mut message = request_for(&previous, &[previous.clone()]);
    message.public_keys[0].key.pop();
    assert!(matches!(
        Request::deserialize(&message),
        Err(Token::Format(Format::DeserializationError(_)))
    ));
    let mut message = request_for(&previous, &[previous.clone()]);
    message.public_keys[0].algorithm = 1;
    assert!(matches!(
        Request::deserialize(&message),
        Err(Token::Format(Format::DeserializationError(_)))
    ));
    let mut message = request_for(&previous, &[]);
    message.previous_key.key = vec![1, 2, 3];
    assert!(matches!(
        Request::deserialize(&message),
        Err(Token::Format(Format::DeserializationError(_)))
    ));
    // a later key of the table that is no key is enough
    let good = KeyPair::new(Algorithm::P256).public();
    let mut message = request_for(&previous, &[good.clone(), previous.clone(), good]);
    message.public_keys[2].algorithm = -1;
    assert_eq!(
        Request::deserialize(&message).err(),
        Some(Token::Format(Format::DeserializationError(
            "deserialization error: unexpected key algorithm -1".to_string()
        )))
    );
    // the key itself still says that its bytes are no key
    let mut key = previous.to_proto();
    key.key.pop();
    assert!(matches!(PublicKey::from_proto(&key), Err(Format::InvalidKey(_))));
}

#[test]
fn the_pending_block_is_written_in_a_fresh_symbol_space() {
    let previous = KeyPair::new(Algorithm::Ed25519).public();
    let mut request = Request::deserialize(&request_for(&previous, &[])).unwrap();
    request.add_fact(Fact { names: vec!["group".to_string(), "admin".to_string()], body: vec![1] });
    request.add_fact(Fact { names: vec!["admin".to_string()], body: vec![2] });
    let block = request.build_block();
    assert_eq!(block.symbols, vec!["group".to_string(), "admin".to_string()]);
    assert_eq!(
        block.facts,
        vec![
            schema::Fact { symbols: vec![0, 1], body: vec![1] },
            schema::Fact { symbols: vec![1], body: vec![2] },
        ]
    );
    assert_eq!(block.public_keys, Vec::new());
    assert_eq!(block.external_signature, None);
}

#[test]
fn a_request_stands_for_its_pending_block() {
    let previous = KeyPair::new(Algorithm::Ed25519).public();
    let mut request = Request::deserialize(&request_for(&previous, &[])).unwrap();
    assert_eq!(request.facts.len(), 0);
    std::ops::DerefMut::deref_mut(&mut request)
        .add_fact(Fact { names: vec!["a".to_string()], body: vec![7] });
    request.add_fact(Fact { names: vec!["b".to_string()], body: vec![8] });
    assert_eq!(request.facts.len(), 2);
    assert_eq!(std::ops::Deref::deref(&request).facts[0].body, vec![7]);
    let block = request.build_block();
    assert_eq!(block.symbols, vec!["a".to_string(), "b".to_string()]);
}

#[test]
fn the_response_signs_payload_tag_and_previous_key() {
    for algorithm in [Algorithm::Ed25519, Algorithm::P256] {
        let previous = KeyPair::new(Algorithm::Ed25519).public();
        let third_party = KeyPair::new(algorithm);
        let request = Request::deserialize(&request_for(&previous, &[])).unwrap();
        let payload = b"payload of the block".to_vec();
        let contents = request.create_response(third_party.private(), payload.clone()).unwrap();
        assert_eq!(contents.payload, payload);
        assert_eq!(contents.external_signature.public_key, third_party.public().to_proto());
        assert_eq!(contents.external_signature.signature.len(), 64);
        assert_eq!(
            PublicKey::from_proto(&contents.external_signature.public_key),
            Ok(third_party.public())
        );
        let mut material = payload.clone();
        material.extend_from_slice(&[0, 0, 0, 0]);
        material.extend_from_slice(&previous.to_bytes());
        assert_eq!(
            contents.external_signature.signature,
            third_party.sign(&material).unwrap().to_bytes().to_vec()
        );
        let signature = Signature::from_bytes(&contents.external_signature.signature);
        assert_eq!(third_party.public().verify_signature(&material, &signature), Ok(()));
    }
}

#[test]
fn a_response_joins_the_chain_and_tampering_is_detected() {
    let k0 = KeyPair::new(Algorithm::Ed25519);
    let k1 = KeyPair::new(Algorithm::Ed25519);
    let k2 = KeyPair::new(Algorithm::Ed25519);
    let third_party = KeyPair::new(Algorithm::Ed25519);

    let first = Block {
        data: b"p0".to_vec(),
        next_key: k1.public(),
        signature: sign(&k0, &k1.public(), b"p0").unwrap(),
        external_signature: None,
    };

    let request = Request::deserialize(&request_for(&k1.public(), &[])).unwrap();
    let contents = request.create_response(third_party.private(), b"third".to_vec()).unwrap();

    let spliced = Block {
        data: contents.payload.clone(),
        next_key: k2.public(),
        signature: sign(&k1, &k2.public(), &contents.payload).unwrap(),
        external_signature: Some(external(&contents)),
    };
    let chain = vec![first.clone(), spliced.clone()];
    assert_eq!(verify_chain(&k0.public(), &chain), Ok(()));

    // the payload was changed, and the holder of the chain signed the change
    let mut tampered = spliced.clone();
    tampered.data = b"thirD".to_vec();
    assert!(is_invalid_signature(&verify_chain(&k0.public(), &vec![first.clone(), tampered.clone()])));
    tampered.signature = sign(&k1, &k2.public(), b"thirD").unwrap();
    assert!(is_invalid_signature(&verify_block_signature(&tampered, &k1.public())));
    assert!(is_invalid_signature(&verify_chain(&k0.public(), &vec![first.clone(), tampered])));

    // another key was put in the place of the signer's
    let mut substituted = spliced.clone();
    substituted.external_signature = Some(ExternalSignature {
        public_key: KeyPair::new(Algorithm::Ed25519).public(),
        signature: Signature::from_bytes(&contents.external_signature.signature),
    });
    assert!(is_invalid_signature(&verify_chain(&k0.public(), &vec![first.clone(), substituted])));

    // the answer was made to follow another key
    let other = Request::deserialize(&request_for(&k2.public(), &[])).unwrap();
    let other_contents = other.create_response(third_party.private(), b"third".to_vec()).unwrap();
    let mut misplaced = spliced.clone();
    misplaced.external_signature = Some(external(&other_contents));
    assert!(is_invalid_signature(&verify_chain(&k0.public(), &vec![first, misplaced])));
}
