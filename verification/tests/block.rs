use chain_store::block::Block;
use chain_store::hash::H256;
use chain_store::transaction::{Input, Output, Transaction};

fn sample_transaction() -> Transaction {
    let input = vec![Input { address: "a".to_string(), transaction_id: "b".to_string() }];
    let output = vec![Output { address: "c".to_string(), amount: 5 }];
    Transaction::new(input, output).unwrap()
}

#[test]
fn genesis_bytes_are_forty_four_zeros() {
    let genesis = Block::genesis();
    assert_eq!(genesis.to_bytes(), vec![0u8; 44]);
    assert_eq!(genesis.parent(), H256::zero());
    assert_eq!(genesis.nonce(), 0);
    assert!(genesis.content().is_empty());
}

#[test]
fn genesis_hash_is_the_digest_of_its_bytes() {
    let genesis = Block::genesis();
    let expected = ring::digest::digest(&ring::digest::SHA256, &[0u8; 44]);
    assert_eq!(genesis.hash().as_bytes().as_slice(), expected.as_ref());
    assert_eq!(Some(genesis.hash()), H256::digest(&genesis.to_bytes()));
}

#[test]
fn block_bytes_are_parent_nonce_count_and_transactions() {
    let mut parent = [0u8; 32];
    for (i, byte) in parent.iter_mut().enumerate() {
        *byte = i as u8;
    }
    let t = sample_transaction();
    let block = Block::new(H256::from_bytes(parent), 0x0102_0304, vec![t.clone(), t.clone()]).unwrap();
    let mut expected = parent.to_vec();
    expected.extend_from_slice(&[4, 3, 2, 1]);
    expected.extend_from_slice(&[2, 0, 0, 0, 0, 0, 0, 0]);
    expected.extend_from_slice(t.as_bytes());
    expected.extend_from_slice(t.as_bytes());
    assert_eq!(block.to_bytes(), expected);
    assert_eq!(block.to_bytes().len(), 44 + 2 * 51);
    assert_eq!(Some(block.hash()), H256::digest(&expected));
    assert_eq!(block.parent(), H256::from_bytes(parent));
    assert_eq!(block.nonce(), 0x0102_0304);
    assert_eq!(block.content().len(), 2);
    assert_eq!(block.content()[1].as_bytes(), t.as_bytes());
}

#[test]
fn hashing_twice_gives_the_same_digest() {
    let block = Block::new(H256::zero(), 9, vec![sample_transaction()]).unwrap();
    assert_eq!(block.hash(), block.hash());
    let copy = block.clone();
    assert_eq!(copy.hash(), block.hash());
    assert_eq!(copy.to_bytes(), block.to_bytes());
    let again = Block::new(H256::zero(), 9, vec![sample_transaction()]).unwrap();
    assert_eq!(again.hash(), block.hash());
}

#[test]
fn different_blocks_have_different_digests() {
    let a = Block::new(H256::zero(), 1, Vec::new()).unwrap();
    let b = Block::new(H256::zero(), 2, Vec::new()).unwrap();
    let c = Block::new(a.hash(), 1, Vec::new()).unwrap();
    let d = Block::new(H256::zero(), 1, vec![sample_transaction()]).unwrap();
    assert_ne!(a.hash(), b.hash());
    assert_ne!(a.hash(), c.hash());
    assert_ne!(a.hash(), d.hash());
    assert_ne!(a.hash(), Block::genesis().hash());
}

#[test]
fn block_hash_survives_a_round_trip_through_its_bytes() {
    let block = Block::new(
        Block::genesis().hash(),
        77,
        vec![sample_transaction(), Transaction::new(Vec::new(), Vec::new()).unwrap()],
    )
    .unwrap();
    type Fields = ([u8; 32], u32, Vec<(Vec<(String, String)>, Vec<(String, u64)>)>);
    let (parent, nonce, content): Fields = bincode::deserialize(&block.to_bytes()).unwrap();
    let content = content
        .into_iter()
        .map(|(ins, outs)| {
            let input = ins
                .into_iter()
                .map(|(address, transaction_id)| Input { address, transaction_id })
                .collect();
            let output =
                outs.into_iter().map(|(address, amount)| Output { address, amount }).collect();
            Transaction::new(input, output).unwrap()
        })
        .collect();
    let back = Block::new(H256::from_bytes(parent), nonce, content).unwrap();
    assert_eq!(back.to_bytes(), block.to_bytes());
    assert_eq!(back.hash(), block.hash());
    assert_eq!(back.parent(), Block::genesis().hash());
    assert_eq!(back.nonce(), 77);
}
