use vstd::prelude::*;
use vstd::string::*;

use crate::types::{Transaction, TxView};

verus! {

/// The transaction `t` with its `block_hash` set to `h`.
pub open spec fn sealed_tx(t: TxView, h: Seq<char>) -> TxView {
    TxView { block_hash: Some(h), ..t }
}

/// The id-indexed lookup table over all transactions ever submitted. Entries
/// are never purged: a sealed transaction stays visible, with its
/// `block_hash` set to the hash of the block that sealed it.
#[derive(Debug)]
pub struct TxTable {
    records: Vec<Transaction>,
}

/// The map a record list denotes, keyed by transaction id.
pub open spec fn records_map(s: Seq<Transaction>) -> Map<Seq<char>, TxView>
    decreases s.len(),
{
    if s.len() == 0 {
        Map::empty()
    } else {
        records_map(s.drop_last()).insert(s.last().id@, s.last()@)
    }
}

/// No two records carry the same id.
pub open spec fn records_distinct(s: Seq<Transaction>) -> bool {
    forall|i: int, j: int| 0 <= i < j < s.len() ==> s[i].id@ != s[j].id@
}

impl View for TxTable {
    type V = Map<Seq<char>, TxView>;

    closed spec fn view(&self) -> Map<Seq<char>, TxView> {
        records_map(self.records@)
    }
}

proof fn lemma_records_map_domain(s: Seq<Transaction>, id: Seq<char>)
    ensures
        records_map(s).dom().contains(id) <==> exists|i: int| 0 <= i < s.len() && s[i].id@ == id,
    decreases s.len(),
{
    if s.len() > 0 {
        lemma_records_map_domain(s.drop_last(), id);
        if records_map(s).dom().contains(id) {
            if s.last().id@ != id {
                let i = choose|i: int| 0 <= i < s.drop_last().len() && s.drop_last()[i].id@ == id;
                assert(s[i].id@ == id);
            }
        }
        if exists|i: int| 0 <= i < s.len() && s[i].id@ == id {
            let i = choose|i: int| 0 <= i < s.len() && s[i].id@ == id;
            if i < s.len() - 1 {
                assert(s.drop_last()[i].id@ == id);
            }
        }
    }
}

proof fn lemma_records_map_value(s: Seq<Transaction>, i: int)
    requires
        records_distinct(s),
        0 <= i < s.len(),
    ensures
        records_map(s).dom().contains(s[i].id@),
        records_map(s)[s[i].id@] == s[i]@,
    decreases s.len(),
{
    lemma_records_map_domain(s, s[i].id@);
    if i < s.len() - 1 {
        assert(s.drop_last()[i] == s[i]);
        lemma_records_map_value(s.drop_last(), i);
        assert(s.last().id@ != s[i].id@);
    }
}

/// Replacing the record at `i` by one with the same id updates the denoted
/// map at that id alone.
proof fn lemma_records_map_update(s: Seq<Transaction>, i: int, t: Transaction)
    requires
        records_distinct(s),
        0 <= i < s.len(),
        t.id@ == s[i].id@,
    ensures
        records_map(s.update(i, t)) =~= records_map(s).insert(t.id@, t@),
    decreases s.len(),
{
    let u = s.update(i, t);
    if i == s.len() - 1 {
        assert(u.drop_last() =~= s.drop_last());
        assert(u.last() == t);
    } else {
        assert(u.drop_last() =~= s.drop_last().update(i, t));
        assert(s.drop_last()[i] == s[i]);
        lemma_records_map_update(s.drop_last(), i, t);
        assert(u.last() == s.last());
        assert(s.last().id@ != t.id@);
        assert(records_map(u) =~= records_map(s).insert(t.id@, t@));
    }
}

impl TxTable {
    /// Whether the table's record list carries distinct ids.
    pub closed spec fn wf(&self) -> bool {
        records_distinct(self.records@)
    }

    /// Creates an empty table.
    pub fn new() -> (t: TxTable)
        ensures
            t.wf(),
            t@ == Map::<Seq<char>, TxView>::empty(),
    {
        TxTable { records: Vec::new() }
    }

    /// Finds the position of the record with the given id, if any.
    fn find_index(&self, id: &String) -> (r: Option<usize>)
        requires
            self.wf(),
        ensures
            match r {
                Some(i) => i < self.records@.len() && self.records@[i as int].id@ == id@,
                None => !self@.dom().contains(id@),
            },
    {
        let mut i: usize = 0;
        while i < self.records.len()
            invariant
                i <= self.records@.len(),
                forall|j: int| 0 <= j < i ==> self.records@[j].id@ != id@,
            decreases self.records@.len() - i,
        {
            if self.records[i].id == *id {
                return Some(i);
            }
            i = i + 1;
        }
        proof {
            lemma_records_map_domain(self.records@, id@);
        }
        None
    }

    /// Adds the transaction under its id, replacing any record with that id.
    pub fn insert(&mut self, t: Transaction)
        requires
            old(self).wf(),
        ensures
            final(self).wf(),
            final(self)@ == old(self)@.insert(t.id@, t@),
    {
        let found = self.find_index(&t.id);
        match found {
            Some(i) => {
                proof {
                    lemma_records_map_update(self.records@, i as int, t);
                }
                self.records[i] = t;
                proof {
                    assert(records_distinct(self.records@));
                }
            },
            None => {
                proof {
                    lemma_records_map_domain(self.records@, t.id@);
                    assert(self.records@.push(t).drop_last() =~= self.records@);
                }
                self.records.push(t);
                proof {
                    assert(records_distinct(self.records@));
                }
            },
        }
        proof {
            assert(final(self)@ =~= old(self)@.insert(t.id@, t@));
        }
    }

    /// Looks a transaction up by id. The result is a function of the table
    /// state alone, so repeated calls with no intervening writes always
    /// return the same value.
    pub fn get(&self, id: &str) -> (r: Option<Transaction>)
        requires
            self.wf(),
        ensures
            match r {
                Some(t) => self@.dom().contains(id@) && t@ == self@[id@],
                None => !self@.dom().contains(id@),
            },
    {
        let key = id.to_owned();
        match self.find_index(&key) {
            Some(i) => {
                proof {
                    lemma_records_map_value(self.records@, i as int);
                }
                Some(self.records[i].duplicate())
            },
            None => None,
        }
    }

    /// Marks the transaction with the given id as sealed into the block whose
    /// hash is `h`. A missing id leaves the table unchanged.
    pub fn set_block_hash(&mut self, id: &String, h: &String)
        requires
            old(self).wf(),
        ensures
            final(self).wf(),
            old(self)@.dom().contains(id@) ==> final(self)@ == old(self)@.insert(
                id@,
                sealed_tx(old(self)@[id@], h@),
            ),
            !old(self)@.dom().contains(id@) ==> final(self)@ == old(self)@,
    {
        let found = self.find_index(id);
        match found {
            Some(i) => {
                proof {
                    lemma_records_map_value(self.records@, i as int);
                }
                let mut t = self.records[i].duplicate();
                t.block_hash = Some(h.clone());
                proof {
                    lemma_records_map_update(self.records@, i as int, t);
                }
                self.records[i] = t;
            },
            None => {},
        }
    }
}

} // verus!
