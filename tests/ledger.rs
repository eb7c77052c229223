use blockchain::block::{Block, Transaction, BATCH_SIZE};
use blockchain::chain::{Blockchain, ContractViolation};

fn record(i: u64) -> Transaction {
    Transaction {
        id: i,
        origin: format!("Sender{}", i),
        destination: format!("Receiver{}", i),
        quantity: i * 10,
    }
}

fn batch(first: u64) -> Vec<Transaction> {
    (first..first + 5).map(record).collect()
}

#[test]
fn fresh_block_is_open_and_empty() {
    let block = Block::new(7, String::from("abc"));
    assert_eq!(block.id, 7);
    assert_eq!(block.previous_hash, "abc");
    assert!(block.transactions.is_empty());
    assert!(block.hash.is_none());
}

#[test]
fn block_stays_open_below_capacity() {
    let mut block = Block::new(1, String::from("0"));
    for i in 1..=4 {
        block.add_transaction(record(i));
        assert!(block.hash.is_none());
    }
    assert_eq!(block.transactions.len(), 4);
}

#[test]
fn full_block_is_sealed_with_its_own_hash() {
    let mut block = Block::new(1, String::from("0"));
    for i in 1..=5 {
        block.add_transaction(record(i));
    }
    assert_eq!(block.transactions.len(), BATCH_SIZE);
    assert_eq!(block.hash, Some(block.calculate_hash()));
}

#[test]
fn record_beyond_capacity_is_dropped() {
    let mut block = Block::new(1, String::from("0"));
    for i in 1..=5 {
        block.add_transaction(record(i));
    }
    let sealed = block.hash.clone();
    block.add_transaction(record(6));
    assert_eq!(block.transactions.len(), 5);
    assert_eq!(block.transactions[4].id, 5);
    assert_eq!(block.hash, sealed);
}

#[test]
fn hash_of_empty_block_has_known_value() {
    let block = Block::with_timestamp(0, 0, String::from("0"));
    assert_eq!(
        block.calculate_hash(),
        "3fcc94e67cf3975473b065f0b21a4e92dd3df498d8b4464d7da9582669ac4e48"
    );
}

#[test]
fn hash_of_block_with_record_has_known_value() {
    let mut block = Block::with_timestamp(1, 1700000000, String::from("abc"));
    block.add_transaction(Transaction {
        id: 1,
        origin: "Alice".to_string(),
        destination: "Bob".to_string(),
        quantity: 50,
    });
    assert_eq!(
        block.calculate_hash(),
        "234cce845674eaa47edb69da016f42edd6973e4c50529a0aec2f32185589dbeb"
    );
}

#[test]
fn hash_is_deterministic_and_pure() {
    let mut block = Block::with_timestamp(3, 42, String::from("prev"));
    block.add_transaction(record(1));
    let before = block.clone();
    let a = block.calculate_hash();
    let b = block.calculate_hash();
    assert_eq!(a, b);
    assert_eq!(a.len(), 64);
    assert!(a.chars().all(|c| c.is_ascii_digit() || ('a'..='f').contains(&c)));
    assert_eq!(block.hash, before.hash);
    assert_eq!(block.transactions.len(), before.transactions.len());
}

#[test]
fn hash_ignores_sealing_path() {
    let mut forced = Block::with_timestamp(0, 100, String::from("0"));
    forced.seal();
    let open = Block::with_timestamp(0, 100, String::from("0"));
    assert_eq!(forced.hash, Some(open.calculate_hash()));
}

#[test]
fn hash_changes_with_each_field() {
    let base = Block::with_timestamp(1, 10, String::from("p"));
    let h = base.calculate_hash();
    assert_ne!(Block::with_timestamp(2, 10, String::from("p")).calculate_hash(), h);
    assert_ne!(Block::with_timestamp(1, 11, String::from("p")).calculate_hash(), h);
    assert_ne!(Block::with_timestamp(1, 10, String::from("q")).calculate_hash(), h);
    let mut with_record = Block::with_timestamp(1, 10, String::from("p"));
    with_record.add_transaction(record(1));
    assert_ne!(with_record.calculate_hash(), h);
}

#[test]
fn fresh_ledger_has_sealed_genesis() {
    let chain = Blockchain::new();
    let genesis = chain.get_block_by_id(0).unwrap();
    assert_eq!(genesis.id, 0);
    assert_eq!(genesis.previous_hash, "0");
    assert!(genesis.transactions.is_empty());
    assert_eq!(genesis.hash, Some(genesis.calculate_hash()));
    assert!(chain.get_block_by_id(1).is_none());
    assert_eq!(chain.latest_block(), Some(0));
    assert!(chain.validate_chain());
}

#[test]
fn appended_batches_are_linked_and_valid() {
    let mut chain = Blockchain::new();
    for n in 0..3u64 {
        chain.add_block(batch(n * 5 + 1));
    }
    assert_eq!(chain.latest_block(), Some(3));
    for n in 0..=3u64 {
        let block = chain.get_block_by_id(n).unwrap();
        assert_eq!(block.id, n);
        assert!(block.hash.is_some());
        if n > 0 {
            let before = chain.get_block_by_id(n - 1).unwrap();
            assert_eq!(Some(block.previous_hash.clone()), before.hash);
            assert_eq!(block.transactions.len(), 5);
            assert_eq!(block.transactions[0].id, (n - 1) * 5 + 1);
        }
    }
    assert!(chain.get_block_by_id(4).is_none());
    assert!(chain.validate_chain());
}

#[test]
fn tampered_record_is_detected_and_restoring_heals() {
    let mut chain = Blockchain::new();
    chain.add_block(batch(1));
    chain.add_block(batch(6));
    assert!(chain.validate_chain());
    chain.blocks[1].transactions[0].quantity = 100;
    assert!(!chain.validate_chain());
    chain.blocks[1].transactions[0].quantity = 10;
    assert!(chain.validate_chain());
}

#[test]
fn tampered_hash_or_link_is_detected() {
    let mut chain = Blockchain::new();
    chain.add_block(batch(1));
    let stored = chain.blocks[1].hash.clone();
    chain.blocks[1].hash = Some(String::from("00"));
    assert!(!chain.validate_chain());
    chain.blocks[1].hash = None;
    assert!(!chain.validate_chain());
    chain.blocks[1].hash = stored;
    assert!(chain.validate_chain());
    chain.blocks[0].previous_hash = String::from("1");
    assert!(!chain.validate_chain());
}

#[test]
fn resealed_middle_block_breaks_next_link() {
    let mut chain = Blockchain::new();
    chain.add_block(batch(1));
    chain.add_block(batch(6));
    chain.blocks[1].transactions[2].origin = String::from("Mallory");
    chain.blocks[1].seal();
    assert!(!chain.validate_chain());
}

#[test]
fn ledger_without_blocks_is_invalid() {
    let chain = Blockchain { blocks: Vec::new() };
    assert!(!chain.validate_chain());
    assert_eq!(chain.latest_block(), None);
}

#[test]
fn wrong_batch_size_is_refused_whole() {
    let mut chain = Blockchain::new();
    let short: Vec<Transaction> = (1..=4).map(record).collect();
    assert_eq!(chain.try_add_block(short), Err(ContractViolation { batch_len: 4 }));
    let long: Vec<Transaction> = (1..=6).map(record).collect();
    assert_eq!(chain.try_add_block(long), Err(ContractViolation { batch_len: 6 }));
    assert_eq!(chain.try_add_block(Vec::new()), Err(ContractViolation { batch_len: 0 }));
    assert_eq!(chain.blocks.len(), 1);
    assert_eq!(chain.try_add_block(batch(1)), Ok(()));
    assert_eq!(chain.blocks.len(), 2);
    assert_eq!(chain.blocks[1].transactions.len(), 5);
    assert!(chain.validate_chain());
}
