use vstd::prelude::*;
use vstd::string::*;

use crate::errors::ChainError;
use crate::hashing::block_hash_chars;
use crate::types::{Block, BlockView};

verus! {

/// The fixed sentinel that stands in for a predecessor hash at index one.
pub open spec fn genesis_chars() -> Seq<char> {
    "0"@
}

/// The views of a sequence of blocks, in order.
pub open spec fn block_views(s: Seq<Block>) -> Seq<BlockView> {
    s.map_values(|b: Block| b@)
}

/// The hash the next appended block must name as its predecessor: the genesis
/// sentinel for an empty chain, the last block's hash otherwise.
pub open spec fn latest_hash_of(s: Seq<BlockView>) -> Seq<char> {
    if s.len() == 0 {
        genesis_chars()
    } else {
        s.last().hash
    }
}

/// The hash-link discipline of a committed chain: indices are one-based,
/// strictly increasing with no gaps, the first block names the genesis
/// sentinel, and every later block names its predecessor's hash.
pub open spec fn linked(s: Seq<BlockView>) -> bool {
    &&& forall|i: int| 0 <= i < s.len() ==> #[trigger] s[i].index == i + 1
    &&& (s.len() > 0 ==> s[0].previous_hash == genesis_chars())
    &&& forall|i: int| 1 <= i < s.len() ==> #[trigger] s[i].previous_hash == s[i - 1].hash
}

/// Every stored hash is reproducible by re-running the digest function over
/// the block's stored fields.
pub open spec fn hashes_valid(s: Seq<BlockView>) -> bool {
    forall|i: int|
        0 <= i < s.len() ==> #[trigger] s[i].hash == block_hash_chars(
            s[i].index,
            s[i].previous_hash,
            s[i].transactions,
            s[i].proof,
        )
}

/// The append-only store of committed blocks, keyed by their one-based index.
/// Every value of this type is a well-linked chain: the link discipline and
/// hash reproducibility hold by construction and can never be broken, because
/// `try_append` refuses any block that would violate them.
#[derive(Debug)]
pub struct ChainStore {
    blocks: Vec<Block>,
}

impl View for ChainStore {
    type V = Seq<BlockView>;

    closed spec fn view(&self) -> Seq<BlockView> {
        block_views(self.blocks@)
    }
}

impl ChainStore {
    #[verifier::type_invariant]
    spec fn chain_invariant(&self) -> bool {
        linked(self@) && hashes_valid(self@)
    }

    /// Creates an empty chain store.
    pub fn new() -> (c: ChainStore)
        ensures
            c@ == Seq::<BlockView>::empty(),
    {
        let c = ChainStore { blocks: Vec::new() };
        proof {
            assert(c@ =~= Seq::<BlockView>::empty());
        }
        c
    }

    /// The highest committed block index, or zero for an empty chain.
    pub fn latest_index(&self) -> (r: u64)
        ensures
            r == self@.len(),
    {
        proof {
            use_type_invariant(self);
            if self@.len() > 0 {
                assert(self@[self@.len() - 1].index == self@.len());
            }
        }
        if self.blocks.len() == 0 {
            0
        } else {
            let b = &self.blocks[self.blocks.len() - 1];
            b.index
        }
    }

    /// The hash the next block must link to: the genesis sentinel for an
    /// empty chain, the last block's hash otherwise.
    pub fn latest_hash(&self) -> (r: String)
        ensures
            r@ == latest_hash_of(self@),
    {
        if self.blocks.len() == 0 {
            "0".to_owned()
        } else {
            self.blocks[self.blocks.len() - 1].hash.clone()
        }
    }

    /// Looks a block up by its one-based index; `None` outside the chain.
    /// The result is a function of the chain state alone, so repeated calls
    /// with no intervening commits always return the same value.
    pub fn get(&self, index: u64) -> (r: Option<Block>)
        ensures
            1 <= index <= self@.len() ==> (r matches Some(b) && b@ == self@[index - 1]),
            !(1 <= index <= self@.len()) ==> r is None,
    {
        if index >= 1 && index <= self.latest_index() {
            proof {
                assert(self@.len() == self.blocks@.len());
                assert(index - 1 < self.blocks.len());
            }
            let i = (index - 1) as usize;
            Some(self.blocks[i].duplicate())
        } else {
            None
        }
    }

    /// The most recently committed block, or `None` for an empty chain.
    pub fn get_last(&self) -> (r: Option<Block>)
        ensures
            self@.len() > 0 ==> (r matches Some(b) && b@ == self@.last()),
            self@.len() == 0 ==> r is None,
    {
        if self.blocks.len() == 0 {
            None
        } else {
            Some(self.blocks[self.blocks.len() - 1].duplicate())
        }
    }

    /// Commits a block, provided it extends the chain: its index must follow
    /// the latest one, its predecessor hash must name the latest hash, and
    /// its stored hash must be reproducible from its fields. Any other block
    /// is refused and the chain is unchanged.
    pub fn try_append(&mut self, block: Block) -> (r: Result<(), ChainError>)
        ensures
            match r {
                Ok(()) => old(self)@.len() < u64::MAX && block@.index == old(self)@.len() + 1
                    && block@.previous_hash == latest_hash_of(old(self)@) && block@.hash
                    == block_hash_chars(
                    block@.index,
                    block@.previous_hash,
                    block@.transactions,
                    block@.proof,
                ) && final(self)@ == old(self)@.push(block@),
                Err(e) => e == ChainError::InvalidBlock && final(self)@ == old(self)@ && !(old(
                    self,
                )@.len() < u64::MAX && block@.index == old(self)@.len() + 1
                    && block@.previous_hash == latest_hash_of(old(self)@) && block@.hash
                    == block_hash_chars(
                    block@.index,
                    block@.previous_hash,
                    block@.transactions,
                    block@.proof,
                )),
            },
    {
        let latest = self.latest_index();
        if latest == u64::MAX {
            return Err(ChainError::InvalidBlock);
        }
        if block.index != latest + 1 {
            return Err(ChainError::InvalidBlock);
        }
        let expected_prev = self.latest_hash();
        if !(block.previous_hash == expected_prev) {
            return Err(ChainError::InvalidBlock);
        }
        let recomputed = crate::hashing::calculate_hash(
            block.index,
            block.previous_hash.as_str(),
            &block.transactions,
            block.proof,
        );
        if !(block.hash == recomputed) {
            return Err(ChainError::InvalidBlock);
        }
        proof {
            use_type_invariant(&*self);
        }
        let mut blocks: Vec<Block> = Vec::new();
        proof {
            assert(block_views(blocks@) =~= Seq::<BlockView>::empty());
        }
        core::mem::swap(&mut blocks, &mut self.blocks);
        blocks.push(block);
        proof {
            assert(block_views(blocks@) =~= old(self)@.push(block@));
        }
        core::mem::swap(&mut blocks, &mut self.blocks);
        Ok(())
    }

    /// Law: in every committed chain the blocks are hash-linked — each block
    /// past the first names its predecessor's hash, the first block names the
    /// genesis sentinel, and indices run one, two, three with no gaps.
    pub proof fn lemma_chain_links(s: Seq<BlockView>, i: int)
        requires
            linked(s),
            0 <= i < s.len(),
        ensures
            s[i].index == i + 1,
            i == 0 ==> s[i].previous_hash == genesis_chars(),
            i >= 1 ==> s[i].previous_hash == s[i - 1].hash,
    {
    }

    /// Law: the links and the hash reproducibility hold of this store's
    /// actual contents — they are an invariant of the type, not a promise
    /// contingent on how the store was built.
    pub fn chain_is_linked(&self) -> (r: bool)
        ensures
            r,
            linked(self@),
            hashes_valid(self@),
    {
        proof {
            use_type_invariant(self);
        }
        true
    }
}

} // verus!
