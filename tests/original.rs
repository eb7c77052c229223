use blockchain::block::{Block, Transaction};
use blockchain::chain::Blockchain;

#[test]
fn test_block_creation() {
    let block = Block::new(1, String::from("0"));
    assert_eq!(block.id, 1);
    assert_eq!(block.transactions.len(), 0);
}

#[test]
fn test_transaction_addition() {
    let mut block = Block::new(1, String::from("0"));
    let transaction = Transaction {
        id: 1,
        origin: "Alice".to_string(),
        destination: "Bob".to_string(),
        quantity: 50,
    };
    block.add_transaction(transaction.clone());
    assert_eq!(block.transactions.len(), 1);
    assert_eq!(block.transactions[0].id, 1);
}

#[test]
fn test_block_hashing() {
    let mut block = Block::new(1, String::from("0"));
    for i in 1..=5 {
        let transaction = Transaction {
            id: i,
            origin: format!("Sender{}", i),
            destination: format!("Receiver{}", i),
            quantity: i * 10,
        };
        block.add_transaction(transaction);
    }
    assert!(block.hash.is_some());
}

#[test]
fn test_blockchain_creation() {
    let blockchain = Blockchain::new();
    assert!(blockchain.get_block_by_id(0).is_some());
}

#[test]
fn test_blockchain_addition() {
    let mut blockchain = Blockchain::new();
    let transactions: Vec<Transaction> = (1..=5)
        .map(|i| Transaction {
            id: i,
            origin: format!("Sender{}", i),
            destination: format!("Receiver{}", i),
            quantity: i * 10,
        })
        .collect();
    blockchain.add_block(transactions);
    assert!(blockchain.get_block_by_id(1).is_some());
}
