use chain_store::hash::H256;
use chain_store::transaction::{sign, verify, Input, Output, SignError, Transaction};
use ring::signature::{Ed25519KeyPair, KeyPair};

fn generate_random_transaction() -> Transaction {
    let num = rand::random::<u8>() % 2;
    let mut input = vec![];
    if num > 0 {
        input = vec![Default::default()];
    }
    let output = vec![];
    Transaction::new(input, output).unwrap()
}

fn random_key() -> Vec<u8> {
    let rng = ring::rand::SystemRandom::new();
    Ed25519KeyPair::generate_pkcs8(&rng).unwrap().as_ref().to_vec()
}

fn sample_transaction() -> Transaction {
    let input = vec![Input { address: "a".to_string(), transaction_id: "b".to_string() }];
    let output = vec![Output { address: "c".to_string(), amount: 5 }];
    Transaction::new(input, output).unwrap()
}

#[test]
fn sign_verify() {
    let t = generate_random_transaction();
    let pkcs8 = random_key();
    let key = Ed25519KeyPair::from_pkcs8(&pkcs8).unwrap();
    let signature = sign(&t, &pkcs8).unwrap();
    assert!(verify(&t, key.public_key().as_ref(), &signature));
}

#[test]
fn signature_is_the_one_the_key_pair_gives() {
    let t = sample_transaction();
    let pkcs8 = random_key();
    let key = Ed25519KeyPair::from_pkcs8(&pkcs8).unwrap();
    let signature = sign(&t, &pkcs8).unwrap();
    assert_eq!(signature.len(), 64);
    assert_eq!(signature.as_slice(), key.sign(t.as_bytes()).as_ref());
    assert_eq!(sign(&t, &pkcs8).unwrap(), signature);
}

#[test]
fn verify_rejects_what_was_not_signed() {
    let t = sample_transaction();
    let other = Transaction::new(Vec::new(), Vec::new()).unwrap();
    let pkcs8 = random_key();
    let key = Ed25519KeyPair::from_pkcs8(&pkcs8).unwrap();
    let stranger = Ed25519KeyPair::from_pkcs8(&random_key()).unwrap();
    let signature = sign(&t, &pkcs8).unwrap();
    assert!(verify(&t, key.public_key().as_ref(), &signature));
    assert!(!verify(&other, key.public_key().as_ref(), &signature));
    assert!(!verify(&t, stranger.public_key().as_ref(), &signature));
    let mut tampered = signature.clone();
    tampered[0] ^= 1;
    assert!(!verify(&t, key.public_key().as_ref(), &tampered));
    assert!(!verify(&t, key.public_key().as_ref(), &signature[..63]));
    assert!(!verify(&t, &[], &signature));
    assert!(!verify(&t, key.public_key().as_ref(), t.as_bytes()));
}

#[test]
fn sign_rejects_a_key_that_is_no_key() {
    let t = sample_transaction();
    assert_eq!(sign(&t, &[]), Err(SignError::KeyRejected));
    assert_eq!(sign(&t, &[1, 2, 3]), Err(SignError::KeyRejected));
    let mut pkcs8 = random_key();
    pkcs8.pop();
    assert_eq!(sign(&t, &pkcs8), Err(SignError::KeyRejected));
}

#[test]
fn transaction_bytes_are_lengths_and_fields_in_order() {
    let t = sample_transaction();
    let mut expected = Vec::new();
    expected.extend_from_slice(&[1, 0, 0, 0, 0, 0, 0, 0]);
    expected.extend_from_slice(&[1, 0, 0, 0, 0, 0, 0, 0]);
    expected.push(b'a');
    expected.extend_from_slice(&[1, 0, 0, 0, 0, 0, 0, 0]);
    expected.push(b'b');
    expected.extend_from_slice(&[1, 0, 0, 0, 0, 0, 0, 0]);
    expected.extend_from_slice(&[1, 0, 0, 0, 0, 0, 0, 0]);
    expected.push(b'c');
    expected.extend_from_slice(&[5, 0, 0, 0, 0, 0, 0, 0]);
    assert_eq!(t.as_bytes(), &expected);
    assert_eq!(t.as_bytes().len(), 51);
}

#[test]
fn empty_transaction_is_two_zero_lengths() {
    let t = Transaction::new(Vec::new(), Vec::new()).unwrap();
    assert_eq!(t.as_bytes(), &vec![0u8; 16]);
    assert!(t.input().is_empty());
    assert!(t.output().is_empty());
}

#[test]
fn transaction_bytes_are_those_of_a_struct_with_its_fields() {
    let t = Transaction::new(
        vec![
            Input { address: "alice".to_string(), transaction_id: "7f".to_string() },
            Input::default(),
        ],
        vec![Output { address: "bob".to_string(), amount: u64::MAX }, Output::default()],
    )
    .unwrap();
    let inputs = vec![("alice", "7f"), ("", "")];
    let outputs = vec![("bob", u64::MAX), ("", 0u64)];
    assert_eq!(t.as_bytes(), &bincode::serialize(&(inputs, outputs)).unwrap());
}

#[test]
fn transaction_hash_is_the_digest_of_its_bytes() {
    let t = sample_transaction();
    assert_eq!(Some(t.hash()), H256::digest(t.as_bytes()));
    let expected = ring::digest::digest(&ring::digest::SHA256, t.as_bytes());
    assert_eq!(t.hash().as_bytes().as_slice(), expected.as_ref());
    assert_eq!(t.hash(), t.clone().hash());
    assert_eq!(t.hash(), sample_transaction().hash());
    assert_ne!(t.hash(), Transaction::new(Vec::new(), Vec::new()).unwrap().hash());
}

#[test]
fn transaction_keeps_its_parts() {
    let t = sample_transaction();
    assert_eq!(t.input().len(), 1);
    assert_eq!(t.input()[0].address, "a");
    assert_eq!(t.input()[0].transaction_id, "b");
    assert_eq!(t.output().len(), 1);
    assert_eq!(t.output()[0].address, "c");
    assert_eq!(t.output()[0].amount, 5);
    let copy = t.clone();
    assert_eq!(copy.input()[0].address, "a");
    assert_eq!(copy.output()[0].amount, 5);
    assert_eq!(copy.as_bytes(), t.as_bytes());
}

#[test]
fn defaults_are_empty() {
    let input = Input::default();
    assert_eq!(input.address, "");
    assert_eq!(input.transaction_id, "");
    let output = Output::default();
    assert_eq!(output.address, "");
    assert_eq!(output.amount, 0);
}

#[test]
fn transaction_hash_survives_a_round_trip_through_its_bytes() {
    let t = Transaction::new(
        vec![Input { address: "alice".to_string(), transaction_id: "7f".to_string() }],
        vec![Output { address: "bob".to_string(), amount: 12 }, Output::default()],
    )
    .unwrap();
    let (ins, outs): (Vec<(String, String)>, Vec<(String, u64)>) =
        bincode::deserialize(t.as_bytes()).unwrap();
    let input = ins
        .into_iter()
        .map(|(address, transaction_id)| Input { address, transaction_id })
        .collect();
    let output = outs.into_iter().map(|(address, amount)| Output { address, amount }).collect();
    let back = Transaction::new(input, output).unwrap();
    assert_eq!(back.as_bytes(), t.as_bytes());
    assert_eq!(back.hash(), t.hash());
}
