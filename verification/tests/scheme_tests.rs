use rabe::errors::RabeError;
use rabe::parser::parse;
use rabe::policy::PolicyLanguage;
use rabe::secretsharing::{calc_coefficients, calc_pruned, gen_shares_policy, remove_index};
use rabe::symenc::{decrypt_symmetric, encrypt_symmetric};
use rabe::yct14::{
    decrypt, encrypt, keygen, setup, Yct14AbeCiphertext, Yct14AbeMasterKey, Yct14AbeSecretKey,
    Yct14Attribute, Yct14Type,
};

use rabe_bn::Fr;
use rand::Rng;

#[test]
fn or() {
    // a set of attributes
    let attributes: Vec<&str> = vec!["A", "B", "C"];
    // setup scheme
    let (pk, msk) = setup(attributes.clone());
    // our plaintext
    let plaintext =
        String::from("dance like no one's watching, encrypt like everyone is!").into_bytes();
    // our policy
    let policy = String::from(r#"{"name": "or", "children": [{"name": "A"}, {"name": "C"}]}"#);
    // kp-abe ciphertext
    let ct: Yct14AbeCiphertext = encrypt(&pk, &attributes, &plaintext).unwrap();
    // a kp-abe SK key
    let sk: Yct14AbeSecretKey = keygen(&msk, &policy, PolicyLanguage::JsonPolicy).unwrap();
    // and now decrypt again with matching sk
    assert_eq!(decrypt(&sk, &ct).unwrap(), plaintext);
}

#[test]
fn s1_or_satisfied() {
    let (pk, msk) = setup(vec!["A", "B", "C"]);
    let plaintext = String::from("our plaintext!").into_bytes();
    let policy = String::from(r#""A" or "B""#);
    let ct = encrypt(&pk, &vec!["A", "B"], &plaintext).unwrap();
    let sk = keygen(&msk, &policy, PolicyLanguage::HumanPolicy).unwrap();
    assert_eq!(decrypt(&sk, &ct).unwrap(), plaintext);
}

#[test]
fn s2_or_right_branch_only() {
    let (pk, msk) = setup(vec!["A", "B", "C"]);
    let plaintext = String::from("arbitrary message").into_bytes();
    let policy = String::from(r#""A" or "C""#);
    let ct = encrypt(&pk, &vec!["C"], &plaintext).unwrap();
    let sk = keygen(&msk, &policy, PolicyLanguage::HumanPolicy).unwrap();
    assert_eq!(decrypt(&sk, &ct).unwrap(), plaintext);
}

#[test]
fn s3_and_unsatisfied() {
    let (pk, msk) = setup(vec!["A", "B"]);
    let plaintext = String::from("should stay sealed").into_bytes();
    let policy = String::from(r#""A" and "B""#);
    let ct = encrypt(&pk, &vec!["A"], &plaintext).unwrap();
    let sk = keygen(&msk, &policy, PolicyLanguage::HumanPolicy).unwrap();
    assert_eq!(decrypt(&sk, &ct).err(), Some(RabeError::PolicyMismatch));
}

#[test]
fn s4_nested_policy() {
    let (pk, msk) = setup(vec!["A", "B", "C"]);
    let mut rng = rand::thread_rng();
    let mut plaintext = vec![0u8; 1024];
    rng.fill(&mut plaintext[..]);
    let policy = String::from(r#""A" or ("B" and "C")"#);
    let ct = encrypt(&pk, &vec!["B", "C"], &plaintext).unwrap();
    let sk = keygen(&msk, &policy, PolicyLanguage::HumanPolicy).unwrap();
    assert_eq!(decrypt(&sk, &ct).unwrap(), plaintext);
}

#[test]
fn decrypt_is_deterministic() {
    let (pk, msk) = setup(vec!["A", "B"]);
    let plaintext = String::from("same in, same out").into_bytes();
    let policy = String::from(r#""A" or "B""#);
    let ct = encrypt(&pk, &vec!["A"], &plaintext).unwrap();
    let sk = keygen(&msk, &policy, PolicyLanguage::HumanPolicy).unwrap();
    let once = decrypt(&sk, &ct);
    let twice = decrypt(&sk, &ct);
    assert_eq!(once.clone().unwrap(), plaintext);
    assert_eq!(once.unwrap(), twice.unwrap());
}

#[test]
fn calc_pruned_is_deterministic_and_picks_first() {
    let tree = parse(r#""A" or "B""#, PolicyLanguage::HumanPolicy).unwrap();
    let avail = vec![String::from("A"), String::from("B")];
    let (sat1, cover1) = calc_pruned(&avail, &tree).unwrap();
    let (sat2, cover2) = calc_pruned(&avail, &tree).unwrap();
    assert!(sat1 && sat2);
    assert_eq!(cover1, cover2);
    // both branches hold, the first satisfied child is chosen
    assert_eq!(cover1, vec![(String::from("A"), String::from("A_0"))]);
}

#[test]
fn calc_pruned_covers_nested_branch() {
    let tree = parse(r#""A" or ("B" and "C")"#, PolicyLanguage::HumanPolicy).unwrap();
    let avail = vec![String::from("B"), String::from("C")];
    let (sat, cover) = calc_pruned(&avail, &tree).unwrap();
    assert!(sat);
    assert_eq!(
        cover,
        vec![
            (String::from("B"), String::from("B_1")),
            (String::from("C"), String::from("C_2")),
        ]
    );
}

#[test]
fn share_labels_follow_preorder() {
    let tree = parse(r#""A" or ("B" and "C")"#, PolicyLanguage::HumanPolicy).unwrap();
    let secret: Fr = rand::thread_rng().gen();
    let shares = gen_shares_policy(secret, &tree).unwrap();
    let labels: Vec<String> = shares.iter().map(|s| s.0.clone()).collect();
    assert_eq!(
        labels,
        vec![String::from("A_0"), String::from("B_1"), String::from("C_2")]
    );
}

#[test]
fn reconstruction_recovers_secret_under_and() {
    let tree = parse(r#""A" and "B""#, PolicyLanguage::HumanPolicy).unwrap();
    let secret: Fr = rand::thread_rng().gen();
    let shares = gen_shares_policy(secret, &tree).unwrap();
    let avail = vec![String::from("A"), String::from("B")];
    let (sat, cover) = calc_pruned(&avail, &tree).unwrap();
    assert!(sat);
    let coeffs = calc_coefficients(&tree, Fr::one()).unwrap();
    let mut sum = Fr::zero();
    for (_, labeled) in cover.iter() {
        let share = shares.iter().find(|s| &s.0 == labeled).unwrap().1;
        let lambda = coeffs.iter().find(|c| &c.0 == labeled).unwrap().1;
        sum = sum + share * lambda;
    }
    assert!(sum == secret);
}

#[test]
fn reconstruction_recovers_secret_under_nested_policy() {
    let tree = parse(r#""A" or ("B" and "C")"#, PolicyLanguage::HumanPolicy).unwrap();
    let secret: Fr = rand::thread_rng().gen();
    let shares = gen_shares_policy(secret, &tree).unwrap();
    let avail = vec![String::from("B"), String::from("C")];
    let (sat, cover) = calc_pruned(&avail, &tree).unwrap();
    assert!(sat);
    let coeffs = calc_coefficients(&tree, Fr::one()).unwrap();
    let mut sum = Fr::zero();
    for (_, labeled) in cover.iter() {
        let share = shares.iter().find(|s| &s.0 == labeled).unwrap().1;
        let lambda = coeffs.iter().find(|c| &c.0 == labeled).unwrap().1;
        sum = sum + share * lambda;
    }
    assert!(sum == secret);
}

#[test]
fn remove_index_strips_the_last_underscore() {
    assert_eq!(remove_index(&String::from("A_0")), "A");
    assert_eq!(remove_index(&String::from("my_attr_3")), "my_attr");
    assert_eq!(remove_index(&String::from("plain")), "plain");
}

#[test]
fn encrypt_rejects_empty_inputs() {
    let (pk, _msk) = setup(vec!["A"]);
    let plaintext = String::from("x").into_bytes();
    let none: Vec<&str> = vec![];
    assert_eq!(
        encrypt(&pk, &none, &plaintext).err(),
        Some(RabeError::EmptyInput)
    );
    let empty: Vec<u8> = vec![];
    assert_eq!(
        encrypt(&pk, &vec!["A"], &empty).err(),
        Some(RabeError::EmptyInput)
    );
}

#[test]
fn encrypt_rejects_unknown_attribute() {
    let (pk, _msk) = setup(vec!["A"]);
    let plaintext = String::from("x").into_bytes();
    assert_eq!(
        encrypt(&pk, &vec!["Z"], &plaintext).err(),
        Some(RabeError::UnknownAttribute)
    );
}

#[test]
fn keygen_rejects_unknown_attribute() {
    let (_pk, msk) = setup(vec!["A"]);
    let policy = String::from(r#""A" or "Z""#);
    assert_eq!(
        keygen(&msk, &policy, PolicyLanguage::HumanPolicy).err(),
        Some(RabeError::UnknownAttribute)
    );
}

#[test]
fn keygen_rejects_bad_policy() {
    let (_pk, msk) = setup(vec!["A"]);
    let policy = String::from(r#""A" or"#);
    assert!(matches!(
        keygen(&msk, &policy, PolicyLanguage::HumanPolicy),
        Err(RabeError::PolicyParse(_))
    ));
}

#[test]
fn keygen_reports_zero_master_scalar() {
    let msk = Yct14AbeMasterKey {
        s: Fr::one(),
        attributes: vec![Yct14Attribute {
            name: String::from("A"),
            node: Yct14Type::Private(Fr::zero()),
        }],
    };
    let policy = String::from(r#""A""#);
    assert_eq!(
        keygen(&msk, &policy, PolicyLanguage::HumanPolicy).err(),
        Some(RabeError::FieldInverse)
    );
}

#[test]
fn tampered_ciphertext_fails_symmetrically() {
    let (pk, msk) = setup(vec!["A"]);
    let plaintext = String::from("integrity matters").into_bytes();
    let policy = String::from(r#""A""#);
    let mut ct = encrypt(&pk, &vec!["A"], &plaintext).unwrap();
    let last = ct.ct.len() - 1;
    ct.ct[last] ^= 0x01;
    let sk = keygen(&msk, &policy, PolicyLanguage::HumanPolicy).unwrap();
    assert_eq!(decrypt(&sk, &ct).err(), Some(RabeError::SymmetricFailure));
}

#[test]
fn node_kinds_are_checked() {
    let g: rabe_bn::Gt = rand::thread_rng().gen();
    let public = Yct14Type::Public(g);
    let private = Yct14Type::Private(Fr::one());
    assert_eq!(public.private().err(), Some(RabeError::TypeConfusion));
    assert_eq!(private.public().err(), Some(RabeError::TypeConfusion));
    assert!(public.public().is_ok());
    assert!(private.private().is_ok());
}

#[test]
fn symmetric_envelope_round_trips() {
    let key_src = vec![1u8, 2, 3, 4];
    let plaintext = String::from("sealed and opened").into_bytes();
    let envelope = encrypt_symmetric(&key_src, &plaintext).unwrap();
    assert_eq!(decrypt_symmetric(&key_src, &envelope).unwrap(), plaintext);

    let other_key = vec![9u8, 9, 9];
    assert_eq!(
        decrypt_symmetric(&other_key, &envelope).err(),
        Some(RabeError::SymmetricFailure)
    );

    let mut broken = envelope.clone();
    let last = broken.len() - 1;
    broken[last] ^= 0x80;
    assert_eq!(
        decrypt_symmetric(&key_src, &broken).err(),
        Some(RabeError::SymmetricFailure)
    );
    assert_eq!(
        decrypt_symmetric(&key_src, &[1u8, 2, 3]).err(),
        Some(RabeError::SymmetricFailure)
    );
}

#[test]
fn decimal_formatting_is_exact() {
    assert_eq!(rabe::strutil::fmt_u64(0), "0");
    assert_eq!(rabe::strutil::fmt_u64(1234), "1234");
    assert_eq!(rabe::strutil::fmt_i8(-128), "-128");
    assert_eq!(rabe::strutil::fmt_i8(7), "7");
}
