use minichain::errors::ChainError;
use minichain::mempool::Mempool;
use minichain::node::{Blockchain, MiningConfig};
use minichain::pos::PoS;
use minichain::types::Transaction;

fn tx(id: &str, sender: &str, recipient: &str, amount: u64) -> Transaction {
    Transaction {
        id: id.to_string(),
        sender: sender.to_string(),
        recipient: recipient.to_string(),
        amount,
        block_hash: None,
    }
}

fn config() -> MiningConfig {
    MiningConfig {
        difficulty: 0,
        block_capacity: 5,
        reward: 1,
        transfer_fee: 1,
        empty_cycle_bonus: 0,
    }
}

fn one_validator() -> PoS {
    let mut pos = PoS::new();
    pos.add_validator("validator".to_string(), 100);
    pos
}

#[test]
fn mempool_is_fifo() {
    let mut pool = Mempool::new();
    pool.submit(tx("t1", "a", "b", 1));
    pool.submit(tx("t2", "a", "b", 2));
    pool.submit(tx("t3", "a", "b", 3));
    let drained = pool.drain(2);
    assert_eq!(drained.len(), 2);
    assert_eq!(drained[0].id, "t1");
    assert_eq!(drained[1].id, "t2");
    assert_eq!(pool.len(), 1);
    let rest = pool.drain(2);
    assert_eq!(rest.len(), 1);
    assert_eq!(rest[0].id, "t3");
    assert_eq!(pool.len(), 0);
}

#[test]
fn mempool_peek_does_not_remove() {
    let mut pool = Mempool::new();
    pool.submit(tx("t1", "a", "b", 1));
    pool.submit(tx("t2", "a", "b", 2));
    let peeked = pool.peek(5);
    assert_eq!(peeked.len(), 2);
    assert_eq!(peeked[0].id, "t1");
    assert_eq!(pool.len(), 2);
}

#[test]
fn node_drains_fifo_into_blocks() {
    let mut node = Blockchain::new(MiningConfig {
        block_capacity: 2,
        ..config()
    });
    let pos = one_validator();
    node.add_transaction(tx("t1", "a", "b", 1)).unwrap();
    node.add_transaction(tx("t2", "a", "b", 2)).unwrap();
    node.add_transaction(tx("t3", "a", "b", 3)).unwrap();

    let block = node.mine_block(&pos, 1000).unwrap();
    assert_eq!(block.transactions.len(), 2);
    assert_eq!(block.transactions[0].id, "t1");
    assert_eq!(block.transactions[1].id, "t2");
    assert_eq!(node.pending_count(), 1);

    let block2 = node.mine_block(&pos, 1001).unwrap();
    assert_eq!(block2.transactions.len(), 1);
    assert_eq!(block2.transactions[0].id, "t3");
    assert_eq!(node.pending_count(), 0);
}

#[test]
fn transfer_moves_funds_and_gets_sealed() {
    let mut node = Blockchain::new(config());
    let pos = one_validator();
    node.update_balance("A", 100).unwrap();

    let id = node.submit_transfer("A", "B", 50).unwrap();
    assert!(!id.is_empty());
    assert_eq!(id.len(), 16);
    assert!(id.chars().all(|c| c.is_ascii_alphanumeric()));
    // The fee of one is debited on top of the amount.
    assert_eq!(node.get_balance("A"), 49);
    assert_eq!(node.get_balance("B"), 50);

    let pending = node.get_transaction(&id).unwrap();
    assert_eq!(pending.sender, "A");
    assert_eq!(pending.recipient, "B");
    assert_eq!(pending.amount, 50);
    assert_eq!(pending.block_hash, None);

    let block = node.mine_block(&pos, 1234).unwrap();
    assert_eq!(block.index, 1);
    assert_eq!(block.timestamp, 1234);
    let sealed = node.get_transaction(&id).unwrap();
    assert_eq!(sealed.block_hash, Some(block.hash.clone()));

    // The validator collected the fixed reward plus the transfer fee.
    assert_eq!(node.get_balance("validator"), 2);
}

#[test]
fn transfer_with_insufficient_funds_changes_nothing() {
    let mut node = Blockchain::new(config());
    node.update_balance("A", 100).unwrap();

    let r = node.submit_transfer("A", "B", 150);
    assert_eq!(r, Err(ChainError::InsufficientFunds));
    assert_eq!(node.get_balance("A"), 100);
    assert_eq!(node.get_balance("B"), 0);
    assert_eq!(node.pending_count(), 0);
}

#[test]
fn transfer_needs_amount_plus_fee() {
    let mut node = Blockchain::new(config());
    node.update_balance("A", 100).unwrap();
    // 100 would cover the amount but not the fee.
    assert_eq!(
        node.submit_transfer("A", "B", 100),
        Err(ChainError::InsufficientFunds)
    );
    // 99 plus the fee of one drains the balance exactly.
    assert!(node.submit_transfer("A", "B", 99).is_ok());
    assert_eq!(node.get_balance("A"), 0);
    assert_eq!(node.get_balance("B"), 99);
}

#[test]
fn chain_links_blocks_by_hash() {
    let mut node = Blockchain::new(config());
    let pos = PoS::new();
    node.add_transaction(tx("t1", "a", "b", 1)).unwrap();
    node.mine_block(&pos, 1).unwrap();
    node.mine_block(&pos, 2).unwrap();
    node.mine_block(&pos, 3).unwrap();

    assert_eq!(node.latest_index(), 3);
    let b1 = node.get_block(1).unwrap();
    let b2 = node.get_block(2).unwrap();
    let b3 = node.get_block(3).unwrap();
    assert_eq!(b1.index, 1);
    assert_eq!(b1.previous_hash, "0");
    assert_eq!(b2.previous_hash, b1.hash);
    assert_eq!(b3.previous_hash, b2.hash);
    assert_eq!(node.get_last_block().unwrap().hash, b3.hash);
    assert!(node.get_block(4).is_none());
    assert!(node.get_block(0).is_none());
}

#[test]
fn add_block_refuses_blocks_that_do_not_extend() {
    let mut node = Blockchain::new(config());
    let bad = minichain::types::Block {
        index: 5,
        previous_hash: "0".to_string(),
        timestamp: 0,
        transactions: Vec::new(),
        proof: 0,
        hash: "notahash".to_string(),
    };
    assert_eq!(node.add_block(bad), Err(ChainError::InvalidBlock));
    assert_eq!(node.latest_index(), 0);
}

#[test]
fn add_block_accepts_a_well_formed_block() {
    let mut node = Blockchain::new(config());
    let txs: Vec<Transaction> = Vec::new();
    let hash = minichain::hashing::calculate_hash(1, "0", &txs, 7);
    let block = minichain::types::Block {
        index: 1,
        previous_hash: "0".to_string(),
        timestamp: 42,
        transactions: txs,
        proof: 7,
        hash,
    };
    assert_eq!(node.add_block(block), Ok(()));
    assert_eq!(node.latest_index(), 1);
}

#[test]
fn empty_transaction_id_is_refused() {
    let mut node = Blockchain::new(config());
    assert_eq!(
        node.add_transaction(tx("", "a", "b", 1)),
        Err(ChainError::EmptyTransactionId)
    );
    assert_eq!(node.pending_count(), 0);
}

#[test]
fn update_balance_overflow_is_refused() {
    let mut node = Blockchain::new(config());
    node.update_balance("A", i64::MAX).unwrap();
    node.update_balance("A", i64::MAX).unwrap();
    // The balance is now one below u64::MAX.
    assert_eq!(
        node.update_balance("A", 2),
        Err(ChainError::BalanceOverflow)
    );
    assert_eq!(node.update_balance("A", 1), Ok(()));
    assert_eq!(node.get_balance("A"), u64::MAX);
}

#[test]
fn queries_are_idempotent() {
    let mut node = Blockchain::new(config());
    node.update_balance("A", 10).unwrap();
    node.add_transaction(tx("t1", "a", "b", 1)).unwrap();
    assert_eq!(node.get_balance("A"), node.get_balance("A"));
    let first = node.get_transaction("t1").unwrap();
    let second = node.get_transaction("t1").unwrap();
    assert_eq!(first.id, second.id);
    assert_eq!(first.amount, second.amount);
    assert_eq!(first.block_hash, second.block_hash);
    assert!(node.get_transaction("absent").is_none());
    assert!(node.get_transaction("absent").is_none());
}

#[test]
fn empty_cycle_bonus_goes_to_the_validator() {
    let mut node = Blockchain::new(MiningConfig {
        empty_cycle_bonus: 2,
        ..config()
    });
    let pos = one_validator();
    node.mine_block(&pos, 1).unwrap();
    // Reward one plus bonus two for the empty block.
    assert_eq!(node.get_balance("validator"), 3);

    node.add_transaction(tx("t1", "a", "b", 1)).unwrap();
    node.mine_block(&pos, 2).unwrap();
    // A non-empty block pays the reward alone.
    assert_eq!(node.get_balance("validator"), 4);
}

#[test]
fn mining_without_validators_skips_the_reward() {
    let mut node = Blockchain::new(config());
    let pos = PoS::new();
    let block = node.mine_block(&pos, 1).unwrap();
    assert_eq!(block.index, 1);
    assert_eq!(node.latest_index(), 1);
}

#[test]
fn airdrop_credits_a_fresh_address() {
    let mut node = Blockchain::new(config());
    let addr = node.airdrop_tokens(1000).unwrap();
    assert_eq!(addr.len(), 64);
    assert_eq!(node.get_balance(&addr), 1000);
}

#[test]
fn fees_accrue_until_the_next_cycle() {
    let mut node = Blockchain::new(config());
    let pos = one_validator();
    node.update_balance("A", 100).unwrap();
    node.submit_transfer("A", "B", 10).unwrap();
    node.submit_transfer("A", "B", 10).unwrap();
    node.mine_block(&pos, 1).unwrap();
    // Two fees of one, plus the fixed reward of one.
    assert_eq!(node.get_balance("validator"), 3);
}
