use vstd::prelude::*;

verus! {

/// A token transfer awaiting inclusion in a block, or already sealed into one.
///
/// `block_hash` is `None` until the transaction is sealed into a committed
/// block, at which point it is set once to that block's hash.
#[derive(Debug, Clone)]
pub struct Transaction {
    pub id: String,
    pub sender: String,
    pub recipient: String,
    pub amount: u64,
    pub block_hash: Option<String>,
}

/// The mathematical image of a `Transaction`: every string field as its
/// character sequence.
pub struct TxView {
    pub id: Seq<char>,
    pub sender: Seq<char>,
    pub recipient: Seq<char>,
    pub amount: u64,
    pub block_hash: Option<Seq<char>>,
}

impl View for Transaction {
    type V = TxView;

    open spec fn view(&self) -> TxView {
        TxView {
            id: self.id@,
            sender: self.sender@,
            recipient: self.recipient@,
            amount: self.amount,
            block_hash: match self.block_hash {
                Some(h) => Some(h@),
                None => None,
            },
        }
    }
}

/// The views of a sequence of transactions, in order.
pub open spec fn tx_views(s: Seq<Transaction>) -> Seq<TxView> {
    s.map_values(|t: Transaction| t@)
}

/// A committed block: a batch of transactions sealed under a proof-of-work
/// nonce and linked to its predecessor by `previous_hash`.
#[derive(Debug, Clone)]
pub struct Block {
    pub index: u64,
    pub previous_hash: String,
    pub timestamp: u64,
    pub transactions: Vec<Transaction>,
    pub proof: u64,
    pub hash: String,
}

/// The mathematical image of a `Block`.
pub struct BlockView {
    pub index: u64,
    pub previous_hash: Seq<char>,
    pub timestamp: u64,
    pub transactions: Seq<TxView>,
    pub proof: u64,
    pub hash: Seq<char>,
}

impl View for Block {
    type V = BlockView;

    open spec fn view(&self) -> BlockView {
        BlockView {
            index: self.index,
            previous_hash: self.previous_hash@,
            timestamp: self.timestamp,
            transactions: tx_views(self.transactions@),
            proof: self.proof,
            hash: self.hash@,
        }
    }
}

impl Transaction {
    /// A field-for-field copy with the same view.
    pub fn duplicate(&self) -> (t: Transaction)
        ensures
            t@ == self@,
    {
        Transaction {
            id: self.id.clone(),
            sender: self.sender.clone(),
            recipient: self.recipient.clone(),
            amount: self.amount,
            block_hash: match &self.block_hash {
                Some(h) => Some(h.clone()),
                None => None,
            },
        }
    }
}

/// A field-for-field copy of a transaction list with the same views.
pub fn duplicate_txs(txs: &Vec<Transaction>) -> (r: Vec<Transaction>)
    ensures
        tx_views(r@) == tx_views(txs@),
        r@.len() == txs@.len(),
{
    let mut out: Vec<Transaction> = Vec::new();
    let mut i: usize = 0;
    while i < txs.len()
        invariant
            i <= txs@.len(),
            out@.len() == i,
            forall|j: int| 0 <= j < i ==> out@[j]@ == txs@[j]@,
        decreases txs@.len() - i,
    {
        out.push(txs[i].duplicate());
        i = i + 1;
    }
    proof {
        assert(tx_views(out@) =~= tx_views(txs@));
    }
    out
}

impl Block {
    /// A field-for-field copy with the same view.
    pub fn duplicate(&self) -> (b: Block)
        ensures
            b@ == self@,
    {
        Block {
            index: self.index,
            previous_hash: self.previous_hash.clone(),
            timestamp: self.timestamp,
            transactions: duplicate_txs(&self.transactions),
            proof: self.proof,
            hash: self.hash.clone(),
        }
    }
}

/// A staked validator eligible for block rewards.
#[derive(Debug, Clone)]
pub struct Validator {
    pub address: String,
    pub stake: u64,
}

/// The mathematical image of a `Validator`.
pub struct ValidatorView {
    pub address: Seq<char>,
    pub stake: u64,
}

impl View for Validator {
    type V = ValidatorView;

    open spec fn view(&self) -> ValidatorView {
        ValidatorView { address: self.address@, stake: self.stake }
    }
}

impl Validator {
    /// A field-for-field copy with the same view.
    pub fn duplicate(&self) -> (v: Validator)
        ensures
            v@ == self@,
    {
        Validator { address: self.address.clone(), stake: self.stake }
    }
}

/// A private/public key pair, as handed out by the identity endpoint.
/// The public key is the hex-encoded digest of the private key.
#[derive(Debug, Clone)]
pub struct KeyPair {
    pub private_key: String,
    pub public_key: String,
}

} // verus!
