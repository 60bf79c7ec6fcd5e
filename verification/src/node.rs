use vstd::prelude::*;
use vstd::string::*;

use crate::chain::{ChainStore, latest_hash_of};
use crate::errors::ChainError;
use crate::hashing::{block_hash_chars, calculate_hash, find_proof, pow_ok};
use crate::keys::generate_transaction_id;
use crate::ledger::{Ledger, balance_in};
use crate::rng::all_alphanumeric;
use crate::mempool::Mempool;
use crate::pos::PoS;
use crate::txtable::{TxTable, sealed_tx};
use crate::types::{Block, BlockView, Transaction, TxView, tx_views};

verus! {

/// The knobs of a node: proof-of-work difficulty (leading zero hex digits of
/// the puzzle digest, at most 64), the block size cap, the fixed reward per
/// mined block, the fee debited from each transfer's sender, and the bonus
/// credited when a cycle seals an empty block (zero switches the bonus off).
///
/// Transfer fees accrue in the node and are paid out, together with the fixed
/// reward, to the validator selected for the next mined block.
#[derive(Debug, Clone, Copy)]
pub struct MiningConfig {
    pub difficulty: usize,
    pub block_capacity: usize,
    pub reward: u64,
    pub transfer_fee: u64,
    pub empty_cycle_bonus: u64,
}

/// The table `m` after sealing each transaction of `batch`, in order, into
/// the block whose hash is `h`: every present id has its `block_hash` set to
/// `h`; ids the table does not know are passed over.
pub open spec fn seal_fold(
    m: Map<Seq<char>, TxView>,
    batch: Seq<TxView>,
    h: Seq<char>,
) -> Map<Seq<char>, TxView>
    decreases batch.len(),
{
    if batch.len() == 0 {
        m
    } else {
        let prev = seal_fold(m, batch.drop_last(), h);
        let t = batch.last();
        if prev.dom().contains(t.id) {
            prev.insert(t.id, sealed_tx(prev[t.id], h))
        } else {
            prev
        }
    }
}

/// Sealing never adds or removes table entries: it only rewrites the
/// `block_hash` of transactions the table already knows.
pub proof fn lemma_seal_fold_dom(m: Map<Seq<char>, TxView>, batch: Seq<TxView>, h: Seq<char>)
    ensures
        seal_fold(m, batch, h).dom() == m.dom(),
    decreases batch.len(),
{
    if batch.len() > 0 {
        lemma_seal_fold_dom(m, batch.drop_last(), h);
        assert(seal_fold(m, batch, h).dom() =~= m.dom());
    }
}

/// Law: sealing a batch into a block marks each sealed transaction. For every
/// transaction of the batch that the table knows (under its last occurrence,
/// should an id repeat), the sealed table carries it with its `block_hash`
/// set to the block's hash.
pub proof fn lemma_seal_fold_marks(
    m: Map<Seq<char>, TxView>,
    batch: Seq<TxView>,
    h: Seq<char>,
    i: int,
)
    requires
        0 <= i < batch.len(),
        m.dom().contains(batch[i].id),
        forall|j: int| i < j < batch.len() ==> batch[j].id != batch[i].id,
    ensures
        seal_fold(m, batch, h).dom().contains(batch[i].id),
        seal_fold(m, batch, h)[batch[i].id].block_hash == Some(h),
    decreases batch.len(),
{
    lemma_seal_fold_dom(m, batch.drop_last(), h);
    if i == batch.len() - 1 {
        assert(seal_fold(m, batch.drop_last(), h).dom().contains(batch[i].id));
    } else {
        assert(batch.drop_last()[i] == batch[i]);
        lemma_seal_fold_marks(m, batch.drop_last(), h, i);
        assert(batch.last().id != batch[i].id);
    }
}

/// Law: sealing touches nothing else — a transaction whose id is not in the
/// batch is carried through a mining cycle's table update unchanged.
pub proof fn lemma_seal_fold_untouched(
    m: Map<Seq<char>, TxView>,
    batch: Seq<TxView>,
    h: Seq<char>,
    id: Seq<char>,
)
    requires
        forall|j: int| 0 <= j < batch.len() ==> batch[j].id != id,
        m.dom().contains(id),
    ensures
        seal_fold(m, batch, h).dom().contains(id),
        seal_fold(m, batch, h)[id] == m[id],
    decreases batch.len(),
{
    if batch.len() > 0 {
        assert(forall|j: int|
            0 <= j < batch.drop_last().len() ==> batch.drop_last()[j] == batch[j]);
        lemma_seal_fold_untouched(m, batch.drop_last(), h, id);
    }
}

/// The single-node ledger/consensus engine: it owns the balances, the
/// mempool, the id-indexed transaction table and the committed chain, and
/// exposes the submission, query and mining operations. Each operation takes
/// the node exclusively, so interleaved callers always observe it between
/// whole operations.
#[derive(Debug)]
pub struct Blockchain {
    ledger: Ledger,
    mempool: Mempool,
    txs: TxTable,
    chain: ChainStore,
    pending_fees: u64,
    pub config: MiningConfig,
}

impl Blockchain {
    /// The internal stores are well formed and the difficulty fits the digest
    /// width.
    pub closed spec fn wf(&self) -> bool {
        &&& self.ledger.wf()
        &&& self.txs.wf()
        &&& self.config.difficulty <= 64
    }

    /// The balance map, address to amount.
    pub closed spec fn balances(&self) -> Map<Seq<char>, u64> {
        self.ledger@
    }

    /// The pending transactions, oldest first.
    pub closed spec fn pool(&self) -> Seq<TxView> {
        self.mempool@
    }

    /// The id-indexed table of every transaction ever admitted.
    pub closed spec fn table(&self) -> Map<Seq<char>, TxView> {
        self.txs@
    }

    /// The committed chain, in block order.
    pub closed spec fn chain_view(&self) -> Seq<BlockView> {
        self.chain@
    }

    /// The transfer fees accrued since the last paid-out mining cycle.
    pub closed spec fn fees(&self) -> u64 {
        self.pending_fees
    }

    /// The node's configuration, as seen by contracts.
    pub closed spec fn spec_config(&self) -> MiningConfig {
        self.config
    }

    /// Creates a node with empty stores.
    pub fn new(config: MiningConfig) -> (b: Blockchain)
        requires
            config.difficulty <= 64,
        ensures
            b.wf(),
            b.balances() == Map::<Seq<char>, u64>::empty(),
            b.pool() == Seq::<TxView>::empty(),
            b.table() == Map::<Seq<char>, TxView>::empty(),
            b.chain_view() == Seq::<BlockView>::empty(),
            b.fees() == 0,
            b.spec_config() == config,
    {
        Blockchain {
            ledger: Ledger::new(),
            mempool: Mempool::new(),
            txs: TxTable::new(),
            chain: ChainStore::new(),
            pending_fees: 0,
            config,
        }
    }

    /// The balance held by `address`; zero for an unknown address. Reads
    /// nothing but the node state, so with no intervening writes repeated
    /// calls return the same value.
    pub fn get_balance(&self, address: &str) -> (r: u64)
        requires
            self.wf(),
        ensures
            r == balance_in(self.balances(), address@),
    {
        self.ledger.balance_of(address)
    }

    /// Applies the signed `amount` to the balance of `address`, refusing any
    /// change that would drive the balance negative or past `u64::MAX`.
    pub fn update_balance(&mut self, address: &str, amount: i64) -> (r: Result<(), ChainError>)
        requires
            old(self).wf(),
        ensures
            final(self).wf(),
            final(self).pool() == old(self).pool(),
            final(self).table() == old(self).table(),
            final(self).chain_view() == old(self).chain_view(),
            final(self).fees() == old(self).fees(),
            final(self).spec_config() == old(self).spec_config(),
            ({
                let b = balance_in(old(self).balances(), address@) as int;
                match r {
                    Ok(()) => 0 <= b + amount <= u64::MAX && final(self).balances() == old(self).balances().insert(address@, (b + amount) as u64),
                    Err(ChainError::InsufficientFunds) => b + amount < 0 && final(self).balances()
                        == old(self).balances(),
                    Err(ChainError::BalanceOverflow) => b + amount > u64::MAX && final(self).balances() == old(self).balances(),
                    Err(_) => false,
                }
            }),
    {
        self.ledger.credit_or_debit(address, amount)
    }

    /// Admits a transaction: records it in the id-indexed table and appends
    /// it to the mempool. The only structural demand is a non-empty id.
    pub fn add_transaction(&mut self, transaction: Transaction) -> (r: Result<(), ChainError>)
        requires
            old(self).wf(),
        ensures
            final(self).wf(),
            final(self).balances() == old(self).balances(),
            final(self).chain_view() == old(self).chain_view(),
            final(self).fees() == old(self).fees(),
            final(self).spec_config() == old(self).spec_config(),
            match r {
                Ok(()) => transaction.id@.len() > 0 && final(self).pool() == old(self).pool().push(
                    transaction@,
                ) && final(self).table() == old(self).table().insert(
                    transaction.id@,
                    transaction@,
                ),
                Err(e) => e == ChainError::EmptyTransactionId && transaction.id@.len() == 0
                    && final(self).pool() == old(self).pool() && final(self).table() == old(self).table(),
            },
    {
        if transaction.id.as_str().is_empty() {
            return Err(ChainError::EmptyTransactionId);
        }
        self.txs.insert(transaction.duplicate());
        self.mempool.submit(transaction);
        Ok(())
    }

    /// The number of transactions awaiting inclusion in a block.
    pub fn pending_count(&self) -> (r: usize)
        ensures
            r == self.pool().len(),
    {
        self.mempool.len()
    }

    /// Looks a transaction up by id, whether pending or sealed. Reads nothing
    /// but the node state, so with no intervening writes repeated calls
    /// return the same value.
    pub fn get_transaction(&self, id: &str) -> (r: Option<Transaction>)
        requires
            self.wf(),
        ensures
            match r {
                Some(t) => self.table().dom().contains(id@) && t@ == self.table()[id@],
                None => !self.table().dom().contains(id@),
            },
    {
        self.txs.get(id)
    }

    /// Looks a block up by its one-based index.
    pub fn get_block(&self, index: u64) -> (r: Option<Block>)
        ensures
            1 <= index <= self.chain_view().len() ==> (r matches Some(b) && b@
                == self.chain_view()[index - 1]),
            !(1 <= index <= self.chain_view().len()) ==> r is None,
    {
        self.chain.get(index)
    }

    /// The most recently committed block, or `None` before the first one.
    pub fn get_last_block(&self) -> (r: Option<Block>)
        ensures
            self.chain_view().len() > 0 ==> (r matches Some(b) && b@ == self.chain_view().last()),
            self.chain_view().len() == 0 ==> r is None,
    {
        self.chain.get_last()
    }

    /// The highest committed block index; zero before the first block.
    pub fn latest_index(&self) -> (r: u64)
        ensures
            r == self.chain_view().len(),
    {
        self.chain.latest_index()
    }

    /// Commits a pre-built block, provided it extends the committed chain;
    /// any other block is refused and nothing changes.
    pub fn add_block(&mut self, block: Block) -> (r: Result<(), ChainError>)
        requires
            old(self).wf(),
        ensures
            final(self).wf(),
            final(self).balances() == old(self).balances(),
            final(self).pool() == old(self).pool(),
            final(self).table() == old(self).table(),
            final(self).fees() == old(self).fees(),
            final(self).spec_config() == old(self).spec_config(),
            match r {
                Ok(()) => old(self).chain_view().len() < u64::MAX && block@.index == old(self).chain_view().len() + 1 && block@.previous_hash == latest_hash_of(
                    old(self).chain_view(),
                ) && block@.hash == block_hash_chars(
                    block@.index,
                    block@.previous_hash,
                    block@.transactions,
                    block@.proof,
                ) && final(self).chain_view() == old(self).chain_view().push(block@),
                Err(e) => e == ChainError::InvalidBlock && final(self).chain_view() == old(self).chain_view(),
            },
    {
        self.chain.try_append(block)
    }

    /// Submits a transfer: debits `from` by `amount` plus the configured fee,
    /// credits `to` by `amount`, and admits a new transaction with a fresh
    /// random id, which is returned. Fails with `InsufficientFunds` exactly
    /// when the sender's balance cannot cover amount plus fee, and with
    /// `BalanceOverflow` exactly when the credit or the accrued fees would
    /// overflow; on failure nothing changes and no transaction is created.
    /// The fee accrues in the node and is paid to the validator rewarded for
    /// the next mined block.
    pub fn submit_transfer(&mut self, from: &str, to: &str, amount: u64) -> (r: Result<
        String,
        ChainError,
    >)
        requires
            old(self).wf(),
        ensures
            final(self).wf(),
            final(self).spec_config() == old(self).spec_config(),
            ({
                let fee = old(self).spec_config().transfer_fee as int;
                let bfrom = balance_in(old(self).balances(), from@) as int;
                let need = amount + fee;
                let bto = if from@ == to@ {
                    bfrom - need
                } else {
                    balance_in(old(self).balances(), to@) as int
                };
                let funds_ok = bfrom >= need;
                let to_ok = bto + amount <= u64::MAX;
                let fees_ok = old(self).fees() + fee <= u64::MAX;
                match r {
                    Ok(id) => funds_ok && to_ok && fees_ok && id@.len() == 16 && all_alphanumeric(
                        id@,
                    ) && ({
                        let tv = TxView {
                            id: id@,
                            sender: from@,
                            recipient: to@,
                            amount: amount,
                            block_hash: None,
                        };
                        &&& final(self).balances() == old(self).balances().insert(
                            from@,
                            (bfrom - need) as u64,
                        ).insert(to@, (bto + amount) as u64)
                        &&& final(self).pool() == old(self).pool().push(tv)
                        &&& final(self).table() == old(self).table().insert(id@, tv)
                        &&& final(self).fees() == old(self).fees() + fee
                        &&& final(self).chain_view() == old(self).chain_view()
                    }),
                    Err(e) => final(self).balances() == old(self).balances() && final(self).pool()
                        == old(self).pool() && final(self).table() == old(self).table() && final(self).fees() == old(self).fees() && final(self).chain_view() == old(self).chain_view() && ((e == ChainError::InsufficientFunds && !funds_ok) || (e
                        == ChainError::BalanceOverflow && funds_ok && !(to_ok && fees_ok))),
                }
            }),
    {
        let fee = self.config.transfer_fee;
        let bfrom = self.ledger.balance_of(from);
        let need128: u128 = amount as u128 + fee as u128;
        if (bfrom as u128) < need128 {
            return Err(ChainError::InsufficientFunds);
        }
        let need: u64 = need128 as u64;
        let from_s = from.to_owned();
        let to_s = to.to_owned();
        let same = from_s == to_s;
        let bto: u64 = if same {
            bfrom - need
        } else {
            self.ledger.balance_of(to)
        };
        if amount > u64::MAX - bto {
            return Err(ChainError::BalanceOverflow);
        }
        if fee > u64::MAX - self.pending_fees {
            return Err(ChainError::BalanceOverflow);
        }
        let debited = self.ledger.debit(from, need);
        match debited {
            Ok(()) => {},
            Err(_) => {
                proof {
                    assert(false);
                }
                return Err(ChainError::InsufficientFunds);
            },
        }
        let credited = self.ledger.credit(to, amount);
        match credited {
            Ok(()) => {},
            Err(_) => {
                proof {
                    assert(false);
                }
                return Err(ChainError::BalanceOverflow);
            },
        }
        self.pending_fees = self.pending_fees + fee;
        let id = generate_transaction_id();
        let tx = Transaction {
            id: id.clone(),
            sender: from_s,
            recipient: to_s,
            amount,
            block_hash: None,
        };
        self.txs.insert(tx.duplicate());
        self.mempool.submit(tx);
        Ok(id)
    }

    /// Credits `amount` freshly created tokens to a new random address and
    /// returns that address. Failure is possible only because the address is
    /// drawn at random: it is reported exactly when the drawn address already
    /// holds a balance that `amount` would push past `u64::MAX`, and then
    /// nothing changes.
    pub fn airdrop_tokens(&mut self, amount: u64) -> (r: Result<String, ChainError>)
        requires
            old(self).wf(),
        ensures
            final(self).wf(),
            final(self).pool() == old(self).pool(),
            final(self).table() == old(self).table(),
            final(self).chain_view() == old(self).chain_view(),
            final(self).fees() == old(self).fees(),
            final(self).spec_config() == old(self).spec_config(),
            match r {
                Ok(a) => a@.len() == 64 && all_alphanumeric(a@) && balance_in(
                    old(self).balances(),
                    a@,
                ) + amount <= u64::MAX && final(self).balances() == old(self).balances().insert(
                    a@,
                    (balance_in(old(self).balances(), a@) + amount) as u64,
                ),
                Err(e) => e == ChainError::BalanceOverflow && final(self).balances() == old(self).balances() && exists|a: Seq<char>|
                    #[trigger] balance_in(old(self).balances(), a) + amount > u64::MAX && a.len()
                        == 64 && all_alphanumeric(a),
            },
    {
        let address = crate::keys::generate_random_address();
        let credited = self.ledger.credit(address.as_str(), amount);
        match credited {
            Ok(()) => Ok(address),
            Err(e) => {
                proof {
                    assert(balance_in(old(self).balances(), address@) + amount > u64::MAX);
                }
                Err(e)
            },
        }
    }

    /// Runs one full mining cycle: drains up to `block_capacity` pending
    /// transactions, searches for a proof of work over them, seals them into
    /// a block linked to the latest committed hash, commits it, marks each
    /// sealed transaction with the block's hash, and credits the fixed reward
    /// plus accrued fees (plus the empty-cycle bonus, when the batch is
    /// empty) to a stake-weighted randomly selected validator. With no
    /// registered validator the reward is skipped and the fees stay accrued.
    pub fn mine_block(&mut self, pos: &PoS, timestamp: u64) -> (r: Result<Block, ChainError>)
        requires
            old(self).wf(),
            pos.wf(),
        ensures
            final(self).wf(),
            final(self).spec_config() == old(self).spec_config(),
            ({
                let cap = old(self).spec_config().block_capacity as int;
                let c = if cap <= old(self).pool().len() {
                    cap
                } else {
                    old(self).pool().len() as int
                };
                let batch = old(self).pool().take(c);
                let prev = latest_hash_of(old(self).chain_view());
                let diff = old(self).spec_config().difficulty as nat;
                match r {
                    Ok(block) => {
                        &&& old(self).chain_view().len() < u64::MAX
                        &&& pow_ok(prev, batch, block@.proof, diff)
                        &&& forall|q: u64| q < block@.proof ==> !pow_ok(prev, batch, q, diff)
                        &&& block@.index == old(self).chain_view().len() + 1
                        &&& block@.previous_hash == prev
                        &&& block@.timestamp == timestamp
                        &&& block@.transactions == batch
                        &&& block@.hash == block_hash_chars(block@.index, prev, batch, block@.proof)
                        &&& final(self).chain_view() == old(self).chain_view().push(block@)
                        &&& final(self).pool() == old(self).pool().skip(c)
                        &&& final(self).table() == seal_fold(old(self).table(), batch, block@.hash)
                        &&& ({
                            let bonus = if c == 0 {
                                old(self).spec_config().empty_cycle_bonus as int
                            } else {
                                0
                            };
                            let amt = old(self).spec_config().reward + old(self).fees() + bonus;
                            if pos@.len() == 0 {
                                final(self).balances() == old(self).balances() && final(self).fees()
                                    == old(self).fees()
                            } else {
                                exists|i: int|
                                    0 <= i < pos@.len() && ({
                                        let a = (#[trigger] pos@[i]).address;
                                        let b = balance_in(old(self).balances(), a) as int;
                                        if amt + b <= u64::MAX {
                                            final(self).balances() == old(self).balances().insert(
                                                a,
                                                (amt + b) as u64,
                                            ) && final(self).fees() == 0
                                        } else {
                                            final(self).balances() == old(self).balances() && final(self).fees() == old(self).fees()
                                        }
                                    })
                            }
                        })
                    },
                    Err(e) => {
                        &&& final(self).balances() == old(self).balances()
                        &&& final(self).pool() == old(self).pool()
                        &&& final(self).table() == old(self).table()
                        &&& final(self).chain_view() == old(self).chain_view()
                        &&& final(self).fees() == old(self).fees()
                        &&& ((e == ChainError::InvalidBlock && old(self).chain_view().len()
                            == u64::MAX) || (e == ChainError::ProofSearchExhausted && old(self).chain_view().len() < u64::MAX && forall|q: u64|
                            !pow_ok(prev, batch, q, diff)))
                    },
                }
            }),
    {
        let latest = self.chain.latest_index();
        if latest == u64::MAX {
            return Err(ChainError::InvalidBlock);
        }
        let prev = self.chain.latest_hash();
        let batch = self.mempool.peek(self.config.block_capacity);
        let found = find_proof(prev.as_str(), &batch, self.config.difficulty);
        let proof_value: u64 = match found {
            Some(p) => p,
            None => {
                return Err(ChainError::ProofSearchExhausted);
            },
        };
        let index = latest + 1;
        let hash = calculate_hash(index, prev.as_str(), &batch, proof_value);
        let drained = self.mempool.drain(self.config.block_capacity);
        let ghost batch_v = tx_views(batch@);
        proof {
            assert(tx_views(drained@) == batch_v);
        }
        let block = Block {
            index,
            previous_hash: prev,
            timestamp,
            transactions: drained,
            proof: proof_value,
            hash: hash.clone(),
        };
        let committed = self.chain.try_append(block.duplicate());
        match committed {
            Ok(()) => {},
            Err(_) => {
                proof {
                    assert(false);
                }
                return Err(ChainError::InvalidBlock);
            },
        }
        // Mark every sealed transaction with the committed block's hash.
        let ghost snap = *self;
        let ghost table0 = self.txs@;
        let mut i: usize = 0;
        while i < block.transactions.len()
            invariant
                self.ledger == snap.ledger,
                self.chain == snap.chain,
                self.mempool == snap.mempool,
                self.pending_fees == snap.pending_fees,
                self.config == snap.config,
                self.ledger.wf(),
                self.config.difficulty <= 64,
                self.txs.wf(),
                i <= block.transactions@.len(),
                batch_v == tx_views(block.transactions@),
                batch_v.len() == block.transactions@.len(),
                hash@ == block.hash@,
                self.txs@ == seal_fold(table0, batch_v.take(i as int), hash@),
            decreases block.transactions@.len() - i,
        {
            self.txs.set_block_hash(&block.transactions[i].id, &hash);
            proof {
                assert(batch_v.take(i + 1).drop_last() =~= batch_v.take(i as int));
                assert(batch_v.take(i + 1).last() == block.transactions@[i as int]@);
                assert(block.transactions@[i as int]@.id == block.transactions@[i as int].id@);
            }
            i = i + 1;
        }
        proof {
            assert(batch_v.take(block.transactions@.len() as int) =~= batch_v);
        }
        // Reward the selected validator with the fixed reward, the accrued
        // fees, and the empty-cycle bonus where the batch was empty.
        let bonus: u64 = if block.transactions.len() == 0 {
            self.config.empty_cycle_bonus
        } else {
            0
        };
        let amt128: u128 = self.config.reward as u128 + self.pending_fees as u128 + bonus as u128;
        if pos.len() > 0 {
            let picked = pos.select_validator();
            match picked {
                Some(v) => {
                    if amt128 <= u64::MAX as u128 {
                        let amt: u64 = amt128 as u64;
                        let credited = self.ledger.credit(v.address.as_str(), amt);
                        match credited {
                            Ok(()) => {
                                self.pending_fees = 0;
                            },
                            Err(_) => {},
                        }
                    }
                },
                None => {
                    proof {
                        assert(false);
                    }
                },
            }
        }
        Ok(block)
    }
}

} // verus!
