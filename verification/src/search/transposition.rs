//! The transposition table: what earlier searches found about positions, by key.
use vstd::prelude::*;
use crate::board::zobrist::Zobrist;
use super::encoded_move::EncodedMove;
use super::eval_data::EvalNumber;

verus! {

/// What a search found about a position.
#[derive(Clone, Copy)]
pub struct NodeValue {
    /// The lower 32 bits of the position's key.
    pub zobrist_key_32: u32,
    /// The depth searched.
    pub ply_remaining: u8,
    /// What the value bounds.
    pub node_type: NodeType,
    /// The value found.
    pub value: EvalNumber,
    /// The best move found.
    pub transposition_move: EncodedMove,
}

/// How a saved value relates to the true value.
#[derive(Clone, Copy, PartialEq, Eq, Structural)]
pub enum NodeType {
    /// The value is exact.
    Exact,
    /// Lower bound.
    Beta,
    /// Upper bound.
    Alpha,
}

/// Every saved value can be negated.
#[verifier::opaque]
pub open spec fn values_negatable(table: Seq<Option<NodeValue>>) -> bool {
    forall|i: int| 0 <= i < table.len() ==> (#[trigger] table[i] matches Some(node) ==> node.value > i32::MIN)
}

/// How many bytes one transposition table entry takes.
pub fn memory_of_one_entry_in_bytes() -> (r: usize)
    ensures
        r as nat == vstd::layout::size_of::<Option<NodeValue>>(),
{
    core::mem::size_of::<Option<NodeValue>>()
}

/// How many transposition table entries fit into `megabytes` megabytes (all of the bytes if an
/// entry took none).
pub open spec fn capacity_for(megabytes: int) -> int {
    if vstd::layout::size_of::<Option<NodeValue>>() == 0 {
        megabytes * 1_000_000
    } else {
        megabytes * 1_000_000 / (vstd::layout::size_of::<Option<NodeValue>>() as int)
    }
}

/// Returns how many transposition table entries could fit into `megabytes` megabytes (all of the
/// bytes if an entry took none).
pub fn megabytes_to_capacity(megabytes: usize) -> (r: usize)
    requires
        megabytes * 1_000_000 <= usize::MAX,
    ensures
        r == capacity_for(megabytes as int),
{
    let entry = memory_of_one_entry_in_bytes();
    if entry == 0 {
        megabytes * 1_000_000
    } else {
        (megabytes * 1_000_000) / entry
    }
}

/// Saved search results, one slot per index.
pub struct TranspositionTable {
    /// The slots.
    pub vec: Vec<Option<NodeValue>>,
}

impl TranspositionTable {
    /// A table of `transposition_capacity` empty slots.
    pub fn new(transposition_capacity: usize) -> (r: Self)
        ensures
            r.vec@.len() == transposition_capacity,
            forall|i: int| 0 <= i < transposition_capacity ==> #[trigger] r.vec@[i] is None,
    {
        let mut vec: Vec<Option<NodeValue>> = Vec::new();
        let mut i: usize = 0;
        while i < transposition_capacity
            invariant
                i <= transposition_capacity,
                vec@.len() == i,
                forall|j: int| 0 <= j < i ==> #[trigger] vec@[j] is None,
            decreases transposition_capacity - i,
        {
            vec.push(None);
            i = i + 1;
        }
        TranspositionTable { vec }
    }

    /// Empties every slot.
    pub fn clear(&mut self)
        ensures
            final(self).vec@.len() == old(self).vec@.len(),
            forall|i: int| 0 <= i < final(self).vec@.len() ==> #[trigger] final(self).vec@[i] is None,
    {
        let mut i: usize = 0;
        while i < self.vec.len()
            invariant
                i <= self.vec@.len(),
                self.vec@.len() == old(self).vec@.len(),
                forall|j: int| 0 <= j < i ==> #[trigger] self.vec@[j] is None,
            decreases self.vec@.len() - i,
        {
            self.vec.set(i, None);
            i = i + 1;
        }
    }

    /// The number of slots.
    pub fn len(&self) -> (r: usize)
        ensures
            r == self.vec@.len(),
    {
        self.vec.len()
    }

    /// The slot at an index.
    pub fn get(&self, zobrist_index: usize) -> (r: Option<NodeValue>)
        requires
            zobrist_index < self.vec@.len(),
        ensures
            r == self.vec@[zobrist_index as int],
    {
        self.vec[zobrist_index]
    }

    /// Fills the slot at an index.
    pub fn set(&mut self, zobrist_index: usize, node_value: NodeValue)
        requires
            zobrist_index < old(self).vec@.len(),
        ensures
            final(self).vec@ == old(self).vec@.update(zobrist_index as int, Some(node_value)),
    {
        self.vec.set(zobrist_index, Some(node_value));
    }

    /// The slot index of a position's key: the key scaled to the number of slots.
    pub fn get_index(&self, zobrist_key: Zobrist) -> (r: usize)
        requires
            self.vec@.len() > 0,
        ensures
            r == (zobrist_key.0 as int * self.vec@.len()) / 0x1_0000_0000_0000_0000,
            r < self.vec@.len(),
    {
        zobrist_key.distribute(self.len()) as usize
    }
}

} // verus!
