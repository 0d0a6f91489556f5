//! A bounded memoization cache for legal-move lists.
//!
//! Because a position is an immutable value and its legal moves are a pure
//! function of that value, a cache hit is always correct regardless of how
//! the position was reached: the cache invariant says every stored list is
//! its position's legal-move list. The cache is bounded; when full, the
//! oldest entry is evicted.

use vstd::prelude::*;
use crate::Move;
use crate::helpers;
use crate::legal::legal_moves;
use crate::position::{Position, pos_eq};

verus! {

/// A memoization layer mapping a full position value to its legal-move
/// list, with first-in-first-out eviction at a fixed capacity.
pub struct LegalMoveCache {
    pub entries: Vec<(Position, Vec<Move>)>,
    pub capacity: usize,
}

impl LegalMoveCache {
    /// The cache invariant: each entry holds a well-formed position and
    /// exactly that position's legal moves, and the entry count never
    /// exceeds the capacity.
    pub open spec fn wf(&self) -> bool {
        &&& self.capacity >= 1
        &&& self.entries@.len() <= self.capacity
        &&& forall|i: int|
            0 <= i < self.entries@.len() ==> (#[trigger] self.entries@[i]).0@.wf()
                && self.entries@[i].1@ == legal_moves(self.entries@[i].0@)
    }

    /// Creates an empty cache that holds at most `capacity` entries.
    pub fn new(capacity: usize) -> (r: LegalMoveCache)
        requires
            capacity >= 1,
        ensures
            r.wf(),
    {
        LegalMoveCache { entries: Vec::new(), capacity }
    }

    /// Looks a position up: a hit always returns that position's legal
    /// moves.
    pub fn get(&self, position: &Position) -> (r: Option<Vec<Move>>)
        requires
            self.wf(),
        ensures
            r matches Some(v) ==> v@ == legal_moves(position@),
    {
        let mut i: usize = 0;
        while i < self.entries.len()
            invariant
                0 <= i <= self.entries@.len(),
                self.wf(),
            decreases self.entries@.len() - i,
        {
            if pos_eq(&self.entries[i].0, position) {
                return Some(helpers::copy_moves(&self.entries[i].1));
            }
            i = i + 1;
        }
        None
    }

    /// Stores a position's legal moves, evicting the oldest entry when the
    /// cache is full.
    pub fn put(&mut self, position: Position, moves: Vec<Move>)
        requires
            old(self).wf(),
            position@.wf(),
            moves@ == legal_moves(position@),
        ensures
            final(self).wf(),
    {
        if self.entries.len() >= self.capacity {
            let _evicted = self.entries.remove(0);
        }
        self.entries.push((position, moves));
    }

    /// Returns the legal moves of a position, from the cache when it has
    /// them, computing and storing them otherwise.
    pub fn legal_moves_cached(&mut self, position: &Position) -> (r: Vec<Move>)
        requires
            old(self).wf(),
            position@.wf(),
        ensures
            final(self).wf(),
            r@ == legal_moves(position@),
    {
        match self.get(position) {
            Some(v) => v,
            None => {
                let moves = position.gen_non_illegal_moves();
                self.put(position.duplicate(), helpers::copy_moves(&moves));
                moves
            },
        }
    }
}

} // verus!
