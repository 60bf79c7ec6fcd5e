use minichain::chain::ChainStore;
use minichain::errors::ChainError;
use minichain::hashing::calculate_hash;
use minichain::types::{Block, Transaction};

fn sealed_block(index: u64, previous_hash: &str, proof: u64) -> Block {
    let txs: Vec<Transaction> = Vec::new();
    let hash = calculate_hash(index, previous_hash, &txs, proof);
    Block {
        index,
        previous_hash: previous_hash.to_string(),
        timestamp: 100 + index,
        transactions: txs,
        proof,
        hash,
    }
}

#[test]
fn empty_store_has_no_blocks() {
    let store = ChainStore::new();
    assert_eq!(store.latest_index(), 0);
    assert_eq!(store.latest_hash(), "0");
    assert!(store.get(1).is_none());
    assert!(store.get_last().is_none());
    assert!(store.chain_is_linked());
}

#[test]
fn append_links_blocks() {
    let mut store = ChainStore::new();
    let b1 = sealed_block(1, "0", 11);
    assert_eq!(store.try_append(b1.clone()), Ok(()));
    let b2 = sealed_block(2, &b1.hash, 22);
    assert_eq!(store.try_append(b2.clone()), Ok(()));

    assert_eq!(store.latest_index(), 2);
    assert_eq!(store.latest_hash(), b2.hash);
    assert_eq!(store.get(1).unwrap().hash, b1.hash);
    assert_eq!(store.get(2).unwrap().previous_hash, b1.hash);
    assert_eq!(store.get_last().unwrap().index, 2);
    assert!(store.chain_is_linked());
}

#[test]
fn append_refuses_wrong_index() {
    let mut store = ChainStore::new();
    let b = sealed_block(2, "0", 7);
    assert_eq!(store.try_append(b), Err(ChainError::InvalidBlock));
    assert_eq!(store.latest_index(), 0);
}

#[test]
fn append_refuses_wrong_predecessor() {
    let mut store = ChainStore::new();
    let b1 = sealed_block(1, "0", 11);
    store.try_append(b1).unwrap();
    let stray = sealed_block(2, "somethingelse", 22);
    assert_eq!(store.try_append(stray), Err(ChainError::InvalidBlock));
    assert_eq!(store.latest_index(), 1);
}

#[test]
fn append_refuses_unreproducible_hash() {
    let mut store = ChainStore::new();
    let mut b = sealed_block(1, "0", 11);
    b.hash = "0000000000000000000000000000000000000000000000000000000000000000".to_string();
    assert_eq!(store.try_append(b), Err(ChainError::InvalidBlock));
    assert_eq!(store.latest_index(), 0);
}

#[test]
fn error_messages_name_the_failure() {
    assert_eq!(ChainError::InsufficientFunds.message(), "insufficient funds");
    assert_eq!(ChainError::BalanceOverflow.message(), "balance overflow");
    assert_eq!(ChainError::EmptyTransactionId.message(), "empty transaction id");
    assert_eq!(ChainError::InvalidBlock.message(), "invalid block");
    assert_eq!(
        ChainError::ProofSearchExhausted.message(),
        "proof search exhausted"
    );
}
