use vstd::prelude::*;

use std::collections::HashMap;

verus! {

broadcast use vstd::std_specs::hash::group_hash_axioms;

/// Scores already computed, keyed by position hash. Only a stub of the
/// eventual store: entries are kept for the process lifetime.
pub struct TranspositionTable {
    table: HashMap<u64, i32>,
}

impl View for TranspositionTable {
    type V = Map<u64, i32>;

    closed spec fn view(&self) -> Map<u64, i32> {
        self.table@
    }
}

impl TranspositionTable {
    pub fn new() -> (r: TranspositionTable)
        ensures
            r@ == Map::<u64, i32>::empty(),
    {
        TranspositionTable { table: HashMap::new() }
    }

    /// Records the score of the position with this hash, replacing any
    /// earlier entry.
    pub fn store(&mut self, zobrist_hash: u64, eval: i32)
        ensures
            final(self)@ == old(self)@.insert(zobrist_hash, eval),
    {
        self.table.insert(zobrist_hash, eval);
    }

    /// The recorded score of the position with this hash, if any.
    pub fn retrieve(&self, zobrist_hash: u64) -> (r: Option<i32>)
        ensures
            r == (if self@.contains_key(zobrist_hash) {
                Some(self@[zobrist_hash])
            } else {
                Option::<i32>::None
            }),
    {
        match self.table.get(&zobrist_hash) {
            Some(v) => Some(*v),
            None => None,
        }
    }
}

} // verus!
