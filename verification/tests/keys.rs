use biscuit_auth::crypto;
use biscuit_auth::crypto::ed25519;
use biscuit_auth::crypto::p256;
use biscuit_auth::crypto::Signature;
use biscuit_auth::error;
use biscuit_auth::error::Format;
use biscuit_auth::format::schema;
use biscuit_auth::format::schema::Algorithm;

const ED_SECRET: &str = "9d61b19deffd5a60ba844af492ec2cc44449c5697b326919703bac031cae7f60";
const ED_PUBLIC: &str = "d75a980182b10ab7d54bfed3c964073a0ee172f3daa62325af021a68f707511a";
const ED_SIGNATURE_OF_EMPTY: &str = "e5564300c360ac729086e2cc806e828a84877f1eb8e5d974d873e065224901555fb8821590a33bacc61e39701cf9b46bd25bf5f0595bbe24655141438e7a100b";

const P256_SCALAR: &str = "c9afa9d845ba75166b5c215767b1d6934e50c3db36e89b127b8a622b120f6721";
const P256_X: &str = "60fed4ba255a9d31c961eb74c6356d68c049b8923b61fa6ce669622e60f29fb6";
const P256_Y: &str = "7903fe1008b8bc99a41ae9e95628bc64f2f1b20c2d7e9f5177a3c294d4462299";
const P256_R_OF_SAMPLE: &str = "efd48b2aacb6a8fd1140dd9cd45e81d69d2c877b56aaf991c34d0ea84eaf3716";

fn p256_document() -> String {
    format!(
        "308187020100301306072a8648ce3d020106082a8648ce3d030107046d306b0201010420{}a14403420004{}{}",
        P256_SCALAR, P256_X, P256_Y
    )
}

#[test]
fn serialization() {
    let kp = p256::KeyPair::new();
    let private = kp.private();
    let public = kp.public();
    let private_hex = private.to_bytes_hex();
    let public_hex = public.to_bytes_hex();

    println!("private: {private_hex}");
    println!("public: {public_hex}");

    let message = "hello world";
    let signature = kp.sign(message.as_bytes()).unwrap();
    println!("signature: {}", hex::encode(signature.to_bytes()));

    let deserialized_priv = p256::PrivateKey::from_bytes_hex(&private_hex).unwrap();
    let deserialized_pub = p256::PublicKey::from_bytes_hex(&public_hex).unwrap();

    assert_eq!(public, deserialized_pub);

    deserialized_pub
        .verify_signature(message.as_bytes(), &signature)
        .unwrap();
}

#[test]
fn ed25519_known_key_derives_signs_and_verifies() {
    let private = ed25519::PrivateKey::from_bytes_hex(ED_SECRET).unwrap();
    assert_eq!(private.to_bytes_hex(), ED_SECRET);
    assert_eq!(private.to_bytes(), hex::decode(ED_SECRET).unwrap());
    let public = private.public();
    assert_eq!(public.to_bytes_hex(), ED_PUBLIC);
    assert_eq!(public.to_bytes().to_vec(), hex::decode(ED_PUBLIC).unwrap());
    let pair = ed25519::KeyPair::from(&private);
    assert_eq!(pair.public(), public);
    assert_eq!(pair.private().to_bytes(), private.to_bytes());
    let signature = pair.sign(b"").unwrap();
    assert_eq!(hex::encode(signature.to_bytes()), ED_SIGNATURE_OF_EMPTY);
    assert_eq!(public.verify_signature(b"", &signature), Ok(()));
}

#[test]
fn ed25519_print_names_the_algorithm() {
    let public = ed25519::PublicKey::from_bytes_hex(ED_PUBLIC).unwrap();
    assert_eq!(public.print(), format!("ed25519/{}", ED_PUBLIC));
    assert_eq!(public.algorithm(), Algorithm::Ed25519);
    assert_eq!(
        crypto::PublicKey::Ed25519(public).print(),
        format!("ed25519/{}", ED_PUBLIC)
    );
}

#[test]
fn ed25519_round_trip_signs_alike() {
    let kp = ed25519::KeyPair::new();
    let private = ed25519::PrivateKey::from_bytes(&kp.private().to_bytes()).unwrap();
    let public = ed25519::PublicKey::from_bytes(&kp.public().to_bytes()).unwrap();
    assert_eq!(public, kp.public());
    let from_hex = ed25519::PrivateKey::from_bytes_hex(&kp.private().to_bytes_hex()).unwrap();
    assert_eq!(from_hex.to_bytes(), private.to_bytes());
    let public_from_hex = ed25519::PublicKey::from_bytes_hex(&public.to_bytes_hex()).unwrap();
    assert_eq!(public_from_hex, public);
    let again = ed25519::KeyPair::from(&private);
    let a = kp.sign(b"message").unwrap();
    let b = again.sign(b"message").unwrap();
    assert_eq!(a, b);
    assert_eq!(public.verify_signature(b"message", &a), Ok(()));
    assert_eq!(public.verify_signature(b"message", &b), Ok(()));
    let cloned = private.clone();
    assert_eq!(cloned.to_bytes(), private.to_bytes());
    let from_pair_bytes = ed25519::KeyPair::from_bytes(&private.to_bytes()).unwrap();
    assert_eq!(from_pair_bytes.public(), public);
    assert_eq!(from_pair_bytes.algorithm(), Algorithm::Ed25519);
    assert_eq!(private.algorithm(), Algorithm::Ed25519);
}

#[test]
fn ed25519_generated_keys_differ() {
    let a = ed25519::KeyPair::new();
    let b = ed25519::KeyPair::new_with_rng(&mut rand::rngs::OsRng);
    let c = ed25519::KeyPair::default();
    assert_ne!(a.public(), b.public());
    assert_ne!(a.public(), c.public());
    assert_eq!(a.private().public(), a.public());
}

#[test]
fn ed25519_verification_errors() {
    let kp = ed25519::KeyPair::new();
    let public = kp.public();
    let signature = kp.sign(b"message").unwrap();
    assert!(matches!(
        public.verify_signature(b"other", &signature),
        Err(Format::Signature(error::Signature::InvalidSignature(_)))
    ));
    let other = ed25519::KeyPair::new().public();
    assert!(matches!(
        other.verify_signature(b"message", &signature),
        Err(Format::Signature(error::Signature::InvalidSignature(_)))
    ));
    assert!(matches!(
        public.verify_signature(b"message", &Signature::from_bytes(&[1u8; 3])),
        Err(Format::SignatureDeserializationError(_))
    ));
    let mut high_bits = signature.to_bytes().to_vec();
    high_bits[63] |= 0xe0;
    assert!(matches!(
        public.verify_signature(b"message", &Signature::from_vec(high_bits)),
        Err(Format::SignatureDeserializationError(_))
    ));
    let mut flipped = signature.to_bytes().to_vec();
    flipped[0] ^= 1;
    assert!(matches!(
        public.verify_signature(b"message", &Signature::from_vec(flipped)),
        Err(Format::Signature(error::Signature::InvalidSignature(_)))
    ));
}

#[test]
fn ed25519_key_decoding_errors() {
    assert_eq!(
        ed25519::PrivateKey::from_bytes(&[0u8; 31]).err(),
        Some(Format::InvalidKeySize(31))
    );
    assert_eq!(
        ed25519::PrivateKey::from_bytes(&[0u8; 33]).err(),
        Some(Format::InvalidKeySize(33))
    );
    assert_eq!(
        ed25519::PrivateKey::from_bytes_hex("00").err(),
        Some(Format::InvalidKeySize(1))
    );
    assert!(matches!(
        ed25519::PrivateKey::from_bytes_hex("0"),
        Err(Format::InvalidKey(_))
    ));
    assert!(matches!(
        ed25519::PrivateKey::from_bytes_hex("zz"),
        Err(Format::InvalidKey(_))
    ));
    assert!(matches!(
        ed25519::KeyPair::from_bytes(&[0u8; 31]),
        Err(Format::InvalidKey(_))
    ));
    assert!(matches!(
        ed25519::PublicKey::from_bytes(&[0u8; 31]),
        Err(Format::InvalidKey(_))
    ));
    assert!(matches!(
        ed25519::PublicKey::from_bytes_hex("d75a"),
        Err(Format::InvalidKey(_))
    ));
    assert!(matches!(
        ed25519::PublicKey::from_bytes_hex("d75"),
        Err(Format::InvalidKey(_))
    ));
    // some 32 bytes are the encoding of no point of the curve
    let unreadable = (0u8..=255).any(|b| {
        let mut bytes = [b; 32];
        bytes[31] &= 0x7f;
        ed25519::PublicKey::from_bytes(&bytes).is_err()
    });
    assert!(unreadable);
}

#[test]
fn hex_text_is_lower_case_and_reads_both_cases() {
    let public = ed25519::PublicKey::from_bytes_hex(&ED_PUBLIC.to_uppercase()).unwrap();
    assert_eq!(public.to_bytes_hex(), ED_PUBLIC);
    let private = ed25519::PrivateKey::from_bytes(&[0xabu8; 32]).unwrap();
    assert_eq!(private.to_bytes_hex(), "ab".repeat(32));
    let mixed = ed25519::PrivateKey::from_bytes_hex(&"aB".repeat(32)).unwrap();
    assert_eq!(mixed.to_bytes(), vec![0xabu8; 32]);
}

#[test]
fn a_key_message_of_another_algorithm_is_refused() {
    let public = ed25519::PublicKey::from_bytes_hex(ED_PUBLIC).unwrap();
    let message = public.to_proto();
    assert_eq!(message.algorithm, 0);
    assert_eq!(message.key, hex::decode(ED_PUBLIC).unwrap());
    assert_eq!(ed25519::PublicKey::from_proto(&message).unwrap(), public);

    let as_p256 = schema::PublicKey { algorithm: 1, key: message.key.clone() };
    assert_eq!(
        ed25519::PublicKey::from_proto(&as_p256).err(),
        Some(Format::DeserializationError(
            "deserialization error: unexpected key algorithm 1".to_string()
        ))
    );
    let negative = schema::PublicKey { algorithm: -12, key: message.key.clone() };
    assert_eq!(
        ed25519::PublicKey::from_proto(&negative).err(),
        Some(Format::DeserializationError(
            "deserialization error: unexpected key algorithm -12".to_string()
        ))
    );
    let large = schema::PublicKey { algorithm: i32::MAX, key: message.key.clone() };
    assert_eq!(
        crypto::PublicKey::from_proto(&large).err(),
        Some(Format::DeserializationError(
            "deserialization error: unexpected key algorithm 2147483647".to_string()
        ))
    );
    let least = schema::PublicKey { algorithm: i32::MIN, key: message.key.clone() };
    assert_eq!(
        crypto::PublicKey::from_proto(&least).err(),
        Some(Format::DeserializationError(
            "deserialization error: unexpected key algorithm -2147483648".to_string()
        ))
    );

    let p256_public = p256::KeyPair::new().public();
    let p256_message = p256_public.to_proto();
    assert_eq!(p256_message.algorithm, 1);
    assert_eq!(p256::PublicKey::from_proto(&p256_message).unwrap(), p256_public);
    let as_ed25519 = schema::PublicKey { algorithm: 0, key: p256_message.key.clone() };
    assert_eq!(
        p256::PublicKey::from_proto(&as_ed25519).err(),
        Some(Format::DeserializationError(
            "deserialization error: unexpected key algorithm 0".to_string()
        ))
    );
    // the tagged key never reads as a key of the other algorithm
    match crypto::PublicKey::from_proto(&as_p256) {
        Ok(key) => assert_ne!(key, crypto::PublicKey::Ed25519(public)),
        Err(e) => assert!(matches!(e, Format::InvalidKey(_))),
    }
    assert!(matches!(
        crypto::PublicKey::from_proto(&as_ed25519),
        Err(Format::InvalidKey(_))
    ));
}

#[test]
fn keys_of_different_algorithms_are_never_equal() {
    let ed = crypto::PublicKey::Ed25519(ed25519::KeyPair::new().public());
    let p = crypto::PublicKey::P256(p256::KeyPair::new().public());
    assert_ne!(ed, p);
    assert_eq!(ed, ed.clone());
    assert_eq!(p, p.clone());
    assert_eq!(ed.algorithm(), Algorithm::Ed25519);
    assert_eq!(p.algorithm(), Algorithm::P256);
    assert_eq!(crypto::PublicKey::from_proto(&ed.to_proto()).unwrap(), ed);
    assert_eq!(crypto::PublicKey::from_proto(&p.to_proto()).unwrap(), p);
    assert_eq!(ed.to_bytes().len(), 32);
    assert_eq!(p.to_bytes().len(), 33);
}

#[test]
fn algorithm_numbers() {
    assert_eq!(Algorithm::Ed25519.tag(), 0);
    assert_eq!(Algorithm::P256.tag(), 1);
    assert_eq!(Algorithm::from_tag(0), Some(Algorithm::Ed25519));
    assert_eq!(Algorithm::from_tag(1), Some(Algorithm::P256));
    assert_eq!(Algorithm::from_tag(2), None);
    assert_eq!(Algorithm::from_tag(-1), None);
}

#[test]
fn p256_known_key_reads_derives_and_signs() {
    let document = p256_document();
    let private = p256::PrivateKey::from_bytes_hex(&document).unwrap();
    assert_eq!(private.to_bytes_hex(), document);
    assert_eq!(private.to_bytes().as_slice(), hex::decode(&document).unwrap().as_slice());
    let again = p256::PrivateKey::from_bytes(private.to_bytes().as_slice()).unwrap();
    assert_eq!(again.to_bytes(), private.to_bytes());
    assert_eq!(private.algorithm(), Algorithm::P256);
    let public = private.public();
    assert_eq!(public.to_bytes_hex(), format!("03{}", P256_X));
    assert_eq!(public.print(), format!("p256/03{}", P256_X));
    assert_eq!(public.algorithm(), Algorithm::P256);
    let uncompressed = format!("04{}{}", P256_X, P256_Y);
    assert_eq!(p256::PublicKey::from_bytes_hex(&uncompressed).unwrap(), public);
    let pair = p256::KeyPair::from_bytes(&hex::decode(&document).unwrap()).unwrap();
    assert_eq!(pair.public(), public);
    assert_eq!(pair.algorithm(), Algorithm::P256);
    let signature = pair.sign(b"sample").unwrap();
    assert_eq!(signature.to_bytes().len(), 64);
    assert_eq!(hex::encode(&signature.to_bytes()[..32]), P256_R_OF_SAMPLE);
    assert_eq!(public.verify_signature(b"sample", &signature), Ok(()));
    let again = p256::KeyPair::from(&private).sign(b"sample").unwrap();
    assert_eq!(again, signature);
}

#[test]
fn p256_errors() {
    let pair = p256::KeyPair::new();
    let public = pair.public();
    let signature = pair.sign(b"message").unwrap();
    assert!(matches!(
        public.verify_signature(b"other", &signature),
        Err(Format::Signature(error::Signature::InvalidSignature(_)))
    ));
    assert!(matches!(
        public.verify_signature(b"message", &Signature::from_bytes(&[0u8; 64])),
        Err(Format::SignatureDeserializationError(_))
    ));
    assert!(matches!(
        public.verify_signature(b"message", &Signature::from_bytes(&[1u8; 63])),
        Err(Format::SignatureDeserializationError(_))
    ));
    assert!(matches!(p256::PrivateKey::from_bytes(&[1u8; 32]), Err(Format::InvalidKey(_))));
    assert!(matches!(p256::PrivateKey::from_bytes_hex("xy"), Err(Format::InvalidKey(_))));
    assert!(matches!(p256::KeyPair::from_bytes(&[]), Err(Format::InvalidKey(_))));
    assert!(matches!(p256::PublicKey::from_bytes(&[2u8; 5]), Err(Format::InvalidKey(_))));
    assert!(matches!(p256::PublicKey::from_bytes_hex("0"), Err(Format::InvalidKey(_))));
    let cloned = pair.private().clone();
    assert_eq!(cloned.to_bytes(), pair.private().to_bytes());
    assert_eq!(cloned.public(), public);
    let other = p256::KeyPair::default();
    assert_ne!(other.public(), public);
    let with_rng = p256::KeyPair::new_with_rng(&mut ::p256::elliptic_curve::rand_core::OsRng);
    assert_ne!(with_rng.public(), public);
}

#[test]
fn signatures_and_keys_have_the_length_of_their_algorithm() {
    for (algorithm, key_length) in [(Algorithm::Ed25519, 32), (Algorithm::P256, 33)] {
        let pair = crypto::KeyPair::new(algorithm);
        for data in [&b""[..], &b"a"[..], &[0u8; 300][..]] {
            assert_eq!(pair.sign(data).unwrap().to_bytes().len(), 64);
            assert_eq!(pair.private().sign(data).unwrap().to_bytes().len(), 64);
        }
        let public = pair.public();
        assert_eq!(public.to_bytes().len(), key_length);
        let message = public.to_proto();
        assert_eq!(message.key.len(), key_length);
        assert_eq!(crypto::PublicKey::from_proto(&message), Ok(public));
    }
    let pair = ed25519::KeyPair::new();
    let signature = pair.sign(b"").unwrap();
    assert_eq!(signature.to_bytes().len(), 64);
    assert_eq!(signature.to_bytes()[63] & 0xe0, 0);
    assert_eq!(pair.public().to_proto().key.len(), 32);
    let pair = p256::KeyPair::new();
    assert_eq!(pair.sign(b"").unwrap().to_bytes().len(), 64);
    assert_eq!(pair.public().to_bytes().len(), 33);
    assert_eq!(pair.public().to_proto().key.len(), 33);
}

#[test]
fn keys_of_any_algorithm_sign_and_verify() {
    for algorithm in [Algorithm::Ed25519, Algorithm::P256] {
        let pair = crypto::KeyPair::new(algorithm);
        assert_eq!(pair.algorithm(), algorithm);
        let public = pair.public();
        assert_eq!(public.algorithm(), algorithm);
        let private = pair.private();
        assert_eq!(private.algorithm(), algorithm);
        assert_eq!(private.public(), public);
        assert_eq!(crypto::KeyPair::from(&private).public(), public);
        let signature = pair.sign(b"data").unwrap();
        assert_eq!(private.sign(b"data").unwrap(), signature);
        assert_eq!(public.verify_signature(b"data", &signature), Ok(()));
        assert!(matches!(
            public.verify_signature(b"datum", &signature),
            Err(Format::Signature(error::Signature::InvalidSignature(_)))
        ));
    }
}
