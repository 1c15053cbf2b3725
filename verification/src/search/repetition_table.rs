//! The keys of the positions played so far, to find repetitions.
use vstd::prelude::*;
use crate::board::zobrist::Zobrist;

verus! {

/// The keys of the positions before the current one, oldest first.
pub struct RepetitionTable {
    /// The keys, oldest first.
    pub positions: Vec<Zobrist>,
}

/// Among the last `half_move_clock` keys, counting back from the newest, the fourth, sixth,
/// eighth and so on (the earlier positions with the same side to move) include `key`.
pub open spec fn repeats(positions: Seq<Zobrist>, key: Zobrist, half_move_clock: int) -> bool {
    &&& half_move_clock >= 4
    &&& exists|k: int|
        3 <= k < half_move_clock && k < positions.len() && (k - 3) % 2 == 0 && #[trigger] positions[positions.len() - 1 - k]
            == key
}

impl RepetitionTable {
    /// An empty table.
    pub fn new() -> (r: Self)
        ensures
            r.positions@ == Seq::<Zobrist>::empty(),
    {
        RepetitionTable { positions: Vec::new() }
    }

    /// Adds the key of a position.
    pub fn push(&mut self, zobrist_key: Zobrist)
        ensures
            final(self).positions@ == old(self).positions@.push(zobrist_key),
    {
        self.positions.push(zobrist_key);
    }

    /// Removes and returns the newest key.
    pub fn pop(&mut self) -> (r: Zobrist)
        requires
            old(self).positions@.len() > 0,
        ensures
            r == old(self).positions@.last(),
            final(self).positions@ == old(self).positions@.drop_last(),
    {
        match self.positions.pop() {
            Some(key) => key,
            None => Zobrist(0),
        }
    }

    /// Whether a position with the same side to move since the last capture or pawn move had the key.
    pub fn contains(&self, zobrist_key: Zobrist, half_move_clock: u32) -> (r: bool)
        ensures
            r == repeats(self.positions@, zobrist_key, half_move_clock as int),
    {
        if half_move_clock < 4 {
            return false;
        }
        let len = self.positions.len();
        let limit: usize = if (half_move_clock as usize) < len { half_move_clock as usize } else { len };
        let mut k: usize = 3;
        while k < limit
            invariant
                len == self.positions@.len(),
                limit <= len,
                limit <= half_move_clock,
                half_move_clock >= 4,
                3 <= k <= limit + 3,
                (k - 3) % 2 == 0,
                forall|j: int| 3 <= j < k && (j - 3) % 2 == 0 ==> #[trigger] self.positions@[len - 1 - j] != zobrist_key,
            decreases limit + 3 - k,
        {
            if self.positions[len - 1 - k] == zobrist_key {
                return true;
            }
            k = k + 2;
        }
        proof {
            assert forall|j: int| 3 <= j < half_move_clock && j < self.positions@.len() && (j - 3) % 2 == 0 implies
                #[trigger] self.positions@[self.positions@.len() - 1 - j] != zobrist_key by {
                assert(j < k);
            }
        }
        false
    }

    /// Whether any position played had the key.
    pub fn contains_anywhere(&self, zobrist_key: Zobrist) -> (r: bool)
        ensures
            r == self.positions@.contains(zobrist_key),
    {
        let len = self.positions.len();
        let mut k: usize = len;
        while k > 0
            invariant
                len == self.positions@.len(),
                k <= len,
                forall|j: int| k <= j < len ==> #[trigger] self.positions@[j] != zobrist_key,
            decreases k,
        {
            k = k - 1;
            if self.positions[k] == zobrist_key {
                return true;
            }
        }
        false
    }

    /// Empties the table.
    pub fn clear(&mut self)
        ensures
            final(self).positions@ == Seq::<Zobrist>::empty(),
    {
        self.positions.clear();
    }
}

} // verus!
