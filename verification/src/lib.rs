//! A verified single-node ledger with a proof-of-work block pipeline and
//! stake-weighted validator rewards.
//!
//! The library accepts transactions into a FIFO mempool, assembles them into
//! hash-linked blocks under a configurable difficulty, tracks per-address
//! balances that can never go negative, and pays each mined block's reward to
//! a validator drawn with probability proportional to its stake. Every
//! operation carries a contract pinning its result and its effect on the
//! node's state, and the crate states and proves the laws these contracts
//! imply: hash determinism, chain linkage, FIFO draining, the stake-share
//! partition of the roll space, and the non-negativity of balances.

pub mod errors;
pub mod types;
pub mod hashing;
pub mod ledger;
pub mod mempool;
pub mod txtable;
pub mod chain;
pub mod rng;
pub mod pos;
pub mod keys;
pub mod node;
