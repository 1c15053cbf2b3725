//! The principal variation: the best line found at each ply.
use vstd::prelude::*;
use super::encoded_move::EncodedMove;

verus! {

/// The number of plies a line may hold.
pub const MAX_PLY: usize = 255;

/// The best lines found: for each ply a line of moves, and its length.
pub struct Pv {
    /// Row `ply` holds the line found from `ply` on, at indices `ply * MAX_PLY + i`.
    pub pv_table: Vec<EncodedMove>,
    /// The length of each row's line.
    pub pv_length: Vec<u8>,
}

/// Rows of 255 entries do not overlap.
proof fn lemma_entry_index(p: int, i: int, q: int, j: int)
    requires
        0 <= i < 255,
        0 <= j < 255,
    ensures
        (p * 255 + i == q * 255 + j) == (p == q && i == j),
{
    if p * 255 + i == q * 255 + j {
        assert(p == q) by (nonlinear_arith)
            requires
                p * 255 + i == q * 255 + j,
                0 <= i < 255,
                0 <= j < 255,
        {
        }
    }
}

impl Pv {
    /// The table holds a row for every ply and a length for every row.
    pub open spec fn wf(self) -> bool {
        &&& self.pv_table@.len() == MAX_PLY * MAX_PLY
        &&& self.pv_length@.len() == MAX_PLY
    }

    /// The move at index `i` of row `ply`.
    pub open spec fn entry(self, ply: int, i: int) -> EncodedMove {
        self.pv_table@[ply * 255 + i]
    }

    /// Creates empty lines.
    pub fn new() -> (r: Self)
        ensures
            r.wf(),
            forall|i: int| 0 <= i < MAX_PLY * MAX_PLY ==> #[trigger] r.pv_table@[i] == EncodedMove(0),
            forall|i: int| 0 <= i < MAX_PLY ==> #[trigger] r.pv_length@[i] == 0,
    {
        let mut pv_table: Vec<EncodedMove> = Vec::new();
        let mut i: usize = 0;
        while i < MAX_PLY * MAX_PLY
            invariant
                i <= MAX_PLY * MAX_PLY,
                pv_table@.len() == i,
                forall|j: int| 0 <= j < i ==> #[trigger] pv_table@[j] == EncodedMove(0),
            decreases MAX_PLY * MAX_PLY - i,
        {
            pv_table.push(EncodedMove(0));
            i = i + 1;
        }
        let mut pv_length: Vec<u8> = Vec::new();
        let mut i: usize = 0;
        while i < MAX_PLY
            invariant
                i <= MAX_PLY,
                pv_length@.len() == i,
                forall|j: int| 0 <= j < i ==> #[trigger] pv_length@[j] == 0,
            decreases MAX_PLY - i,
        {
            pv_length.push(0);
            i = i + 1;
        }
        Pv { pv_table, pv_length }
    }

    /// The best line from the root.
    pub fn best_line(&self) -> (r: Vec<EncodedMove>)
        requires
            self.wf(),
        ensures
            r@.len() == self.pv_length@[0],
            forall|i: int| 0 <= i < r@.len() ==> #[trigger] r@[i] == self.entry(0, i),
    {
        let length = self.pv_length[0] as usize;
        let mut line: Vec<EncodedMove> = Vec::new();
        let mut i: usize = 0;
        while i < length
            invariant
                self.wf(),
                length == self.pv_length@[0],
                i <= length,
                line@.len() == i,
                forall|j: int| 0 <= j < i ==> #[trigger] line@[j] == self.entry(0, j),
            decreases length - i,
        {
            line.push(self.pv_table[i]);
            i = i + 1;
        }
        line
    }

    /// Returns the best move at the first ply.
    pub fn root_best_move(&self) -> (r: EncodedMove)
        requires
            self.wf(),
        ensures
            r == self.entry(0, 0),
    {
        self.pv_table[0]
    }

    /// Sets the length of the line at `ply_from_root`.
    pub fn set_pv_length(&mut self, ply_from_root: u8, length: u8)
        requires
            old(self).wf(),
            (ply_from_root as int) < MAX_PLY,
        ensures
            final(self).wf(),
            final(self).pv_table@ == old(self).pv_table@,
            final(self).pv_length@ == old(self).pv_length@.update(ply_from_root as int, length),
    {
        self.pv_length.set(ply_from_root as usize, length);
    }

    /// Puts `encoded_move_data` first in the line at `ply_from_root`, followed by the line of the
    /// next ply.
    pub fn update_move(&mut self, ply_from_root: u8, encoded_move_data: EncodedMove)
        requires
            old(self).wf(),
            (ply_from_root as int) + 1 < MAX_PLY,
        ensures
            final(self).wf(),
            forall|p: int, i: int| 0 <= p < MAX_PLY && 0 <= i < MAX_PLY ==> #[trigger] final(self).entry(p, i) == if p
                == ply_from_root && i == ply_from_root {
                encoded_move_data
            } else if p == ply_from_root && ply_from_root < i < old(self).pv_length@[ply_from_root + 1] {
                old(self).entry(ply_from_root + 1, i)
            } else {
                old(self).entry(p, i)
            },
            final(self).pv_length@ == old(self).pv_length@.update(
                ply_from_root as int,
                old(self).pv_length@[ply_from_root + 1],
            ),
    {
        let ply = ply_from_root as usize;
        let row = ply * MAX_PLY;
        let next_row = (ply + 1) * MAX_PLY;
        let ghost start = *self;
        self.pv_table.set(row + ply, encoded_move_data);
        proof {
            assert forall|p: int, i: int| 0 <= p < MAX_PLY && 0 <= i < MAX_PLY implies #[trigger] self.entry(p, i) == if p == ply
                && i == ply {
                encoded_move_data
            } else {
                start.entry(p, i)
            } by {
                lemma_entry_index(p, i, ply as int, ply as int);
            }
        }
        let next_length = self.pv_length[ply + 1] as usize;
        let mut next_ply: usize = ply + 1;
        while next_ply < next_length
            invariant
                ply + 1 < MAX_PLY,
                row == ply * MAX_PLY,
                next_row == (ply + 1) * MAX_PLY,
                next_length == start.pv_length@[ply + 1],
                ply + 1 <= next_ply <= MAX_PLY,
                self.wf(),
                self.pv_length@ == start.pv_length@,
                forall|p: int, i: int| 0 <= p < MAX_PLY && 0 <= i < MAX_PLY ==> #[trigger] self.entry(p, i) == if p == ply
                    && i == ply {
                    encoded_move_data
                } else if p == ply && ply < i < next_ply && i < next_length {
                    start.entry(ply + 1, i)
                } else {
                    start.entry(p, i)
                },
            decreases MAX_PLY - next_ply,
        {
            let moved = self.pv_table[next_row + next_ply];
            let ghost before = *self;
            self.pv_table.set(row + next_ply, moved);
            proof {
                lemma_entry_index(ply as int + 1, next_ply as int, ply as int + 1, next_ply as int);
                assert(moved == start.entry(ply + 1, next_ply as int)) by {
                    assert(before.entry(ply + 1, next_ply as int) == start.entry(ply + 1, next_ply as int));
                }
                assert forall|p: int, i: int| 0 <= p < MAX_PLY && 0 <= i < MAX_PLY implies #[trigger] self.entry(p, i) == if p
                    == ply && i == next_ply {
                    moved
                } else {
                    before.entry(p, i)
                } by {
                    lemma_entry_index(p, i, ply as int, next_ply as int);
                }
            }
            next_ply = next_ply + 1;
        }
        let ghost filled = *self;
        self.pv_length.set(ply, next_length as u8);
        proof {
            assert forall|p: int, i: int| 0 <= p < MAX_PLY && 0 <= i < MAX_PLY implies #[trigger] self.entry(p, i) == if p
                == ply_from_root && i == ply_from_root {
                encoded_move_data
            } else if p == ply_from_root && ply_from_root < i < start.pv_length@[ply_from_root + 1] {
                start.entry(ply_from_root + 1, i)
            } else {
                start.entry(p, i)
            } by {
                assert(self.entry(p, i) == filled.entry(p, i));
            }
        }
    }
}

} // verus!
