//! Counting the move paths of a given length, to test move generation.
use vstd::prelude::*;
use crate::board::Board;
use crate::move_generator::{MoveGenerator, lemma_describes_unique};
use crate::move_generator::maker::{is_made, lemma_made_unique, lemma_unmake_undoes_make};
use crate::move_generator::move_data::Move;
use crate::move_generator::playable::{is_playable, playable, lemma_generated_moves_round_trip, lemma_playable_pieces_apart};

verus! {

/// Two boards hold the same pieces, side to move, move counter and game state.
pub open spec fn same_board(a: Board, b: Board) -> bool {
    &&& a.bit_boards@ == b.bit_boards@
    &&& a.white_to_move == b.white_to_move
    &&& a.full_move_counter == b.full_move_counter
    &&& a.game_state == b.game_state
}


/// The sum of the counts, modulo 2^64.
pub open spec fn wrapping_total(counts: Seq<u64>) -> u64
    decreases counts.len(),
{
    if counts.len() == 0 {
        0
    } else {
        vstd::wrapping::u64_specs::wrapping_add(wrapping_total(counts.drop_last()), counts.last())
    }
}

/// The moves `ms` are those that a generator for `b` generates, each listed once.
pub open spec fn lists_moves(b: Board, g: MoveGenerator, ms: Seq<Move>) -> bool {
    &&& g.describes(b)
    &&& ms.no_duplicates()
    &&& forall|m: Move| #[trigger] ms.contains(m) == g.generates(false, m)
}

/// Whether `r` is the number of paths of `depth` moves from `b`, modulo 2^64: one for no moves,
/// none from a position that is not playable, the number of generated moves for one move, else
/// the sum over the generated moves of the paths after each: `after` holds the board each move
/// leaves and `counts` the paths of one move fewer from there.
pub open spec fn perft_count(b: Board, depth: nat, r: u64) -> bool
    decreases depth,
{
    if depth == 0 {
        r == 1
    } else if !playable(b) {
        r == 0
    } else if depth == 1 {
        exists|g: MoveGenerator, ms: Seq<Move>| #[trigger] lists_moves(b, g, ms) && r == ms.len()
    } else {
        exists|g: MoveGenerator, ms: Seq<Move>, after: Seq<Board>, counts: Seq<u64>|
            #![trigger lists_moves(b, g, ms), after.len(), counts.len()]
            {
                &&& lists_moves(b, g, ms)
                &&& after.len() == ms.len()
                &&& counts.len() == ms.len()
                &&& forall|i: int|
                    0 <= i < ms.len() ==> is_made(b, ms[i], #[trigger] after[i]) && perft_count(
                        after[i],
                        (depth - 1) as nat,
                        counts[i],
                    )
                &&& r == wrapping_total(counts)
            }
    }
}

/// Makes `m`, counts the paths of `depth` more moves, and unmakes `m`.
fn perft_after(board: &mut Board, move_generator: &MoveGenerator, m: Move, depth: u16) -> (r: u64)
    requires
        playable(*old(board)),
        move_generator.describes(*old(board)),
        move_generator.generates(false, m),
    ensures
        same_board(*final(board), *old(board)),
        counted_after(*old(board), m, depth as nat, r),
    decreases depth, 1int,
{
    let ghost before = *board;
    proof {
        lemma_generated_moves_round_trip(before, *move_generator, false, m);
        lemma_unmake_undoes_make(before, m);
    }
    let old_state = board.make_move(&m);
    let ghost made = *board;
    let count = perft(board, depth);
    proof {
        assert(is_made(before, m, made));
    }
    board.unmake_move(&m, &old_state);
    count
}

/// Counts the paths of `depth` moves from the position; a position that is not playable has none.
pub fn perft(board: &mut Board, depth: u16) -> (r: u64)
    ensures
        same_board(*final(board), *old(board)),
        perft_count(*old(board), depth as nat, r),
    decreases depth, 0int,
{
    if depth == 0 {
        return 1;
    }
    if !is_playable(board) {
        return 0;
    }
    let move_generator = MoveGenerator::new(board);
    let moves = move_generator.gen(false);
    proof {
        lemma_playable_pieces_apart(*board, move_generator);
        assert(lists_moves(*board, move_generator, moves@));
    }
    if depth == 1 {
        return moves.len() as u64;
    }
    let ghost start = *board;
    let ghost after: Seq<Board> = Seq::empty();
    let ghost counts: Seq<u64> = Seq::empty();
    let mut move_count: u64 = 0;
    let mut i: usize = 0;
    while i < moves.len()
        invariant
            i <= moves.len(),
            depth >= 2,
            same_board(*board, start),
            playable(start),
            move_generator.describes(start),
            forall|m: Move| #[trigger] moves@.contains(m) == move_generator.generates(false, m),
            after.len() == i,
            counts.len() == i,
            forall|j: int|
                0 <= j < i ==> is_made(start, moves@[j], #[trigger] after[j]) && perft_count(
                    after[j],
                    (depth - 1) as nat,
                    counts[j],
                ),
            move_count == wrapping_total(counts),
        decreases moves.len() - i,
    {
        let m = moves[i];
        proof {
            assert(moves@.contains(m));
            assert(board.bit_boards =~= start.bit_boards);
            assert(*board == start);
        }
        let inner = perft_after(board, &move_generator, m, depth - 1);
        move_count = move_count.wrapping_add(inner);
        proof {
            let a = choose|a: Board| #[trigger] is_made(start, m, a) && perft_count(a, (depth - 1) as nat, inner);
            assert(counts.push(inner).drop_last() =~= counts);
            after = after.push(a);
            counts = counts.push(inner);
        }
        i = i + 1;
    }
    proof {
        assert(lists_moves(start, move_generator, moves@));
    }
    move_count
}

/// The moves of a list of moves with their counts.
pub open spec fn first_moves(counts: Seq<(Move, u64)>) -> Seq<Move> {
    counts.map_values(|e: (Move, u64)| e.0)
}

/// `count` is the number of paths of `depth` moves after `m` is made on `b`.
pub open spec fn counted_after(b: Board, m: Move, depth: nat, count: u64) -> bool {
    exists|a: Board| #[trigger] is_made(b, m, a) && perft_count(a, depth, count)
}

/// Each count is the number of paths of `depth` moves after its move is made on `b`.
pub open spec fn counts_after_moves(b: Board, depth: nat, counts: Seq<(Move, u64)>) -> bool {
    forall|i: int| 0 <= i < counts.len() ==> counted_after(b, (#[trigger] counts[i]).0, depth, counts[i].1)
}

/// Counts the paths of `depth` moves from the position, and for each first move the paths after it.
pub fn perft_root(board: &mut Board, depth: u16) -> (r: (u64, Vec<(Move, u64)>))
    ensures
        same_board(*final(board), *old(board)),
        perft_count(*old(board), depth as nat, r.0),
        depth >= 1 && playable(*old(board)) ==> exists|g: MoveGenerator| #[trigger] lists_moves(
            *old(board),
            g,
            first_moves(r.1@),
        ),
        counts_after_moves(*old(board), (depth - 1) as nat, r.1@),
        depth == 0 || !playable(*old(board)) ==> r.1@.len() == 0,
{
    if depth == 0 || !is_playable(board) {
        return (if depth == 0 { 1 } else { 0 }, Vec::new());
    }
    let move_generator = MoveGenerator::new(board);
    let moves = move_generator.gen(false);
    let ghost start = *board;
    proof {
        lemma_playable_pieces_apart(*board, move_generator);
        assert(lists_moves(*board, move_generator, moves@));
    }
    let ghost after: Seq<Board> = Seq::empty();
    let ghost totals: Seq<u64> = Seq::empty();
    let mut move_count: u64 = 0;
    let mut counts: Vec<(Move, u64)> = Vec::new();
    let mut i: usize = 0;
    while i < moves.len()
        invariant
            i <= moves.len(),
            depth >= 1,
            same_board(*board, start),
            playable(start),
            move_generator.describes(start),
            forall|m: Move| #[trigger] moves@.contains(m) == move_generator.generates(false, m),
            after.len() == i,
            totals.len() == i,
            counts@.len() == i,
            forall|j: int| 0 <= j < i ==> (#[trigger] counts@[j]).0 == moves@[j] && counts@[j].1 == totals[j],
            forall|j: int|
                0 <= j < i ==> is_made(start, moves@[j], #[trigger] after[j]) && perft_count(
                    after[j],
                    (depth - 1) as nat,
                    totals[j],
                ),
            move_count == wrapping_total(totals),
        decreases moves.len() - i,
    {
        let m = moves[i];
        proof {
            assert(moves@.contains(m));
            assert(board.bit_boards =~= start.bit_boards);
            assert(*board == start);
        }
        let inner = perft_after(board, &move_generator, m, depth - 1);
        move_count = move_count.wrapping_add(inner);
        counts.push((m, inner));
        proof {
            let a = choose|a: Board| #[trigger] is_made(start, m, a) && perft_count(a, (depth - 1) as nat, inner);
            assert(totals.push(inner).drop_last() =~= totals);
            after = after.push(a);
            totals = totals.push(inner);
        }
        i = i + 1;
    }
    let result = (move_count, counts);
    proof {
        if depth == 1 {
            assert forall|j: int| 0 <= j < totals.len() implies #[trigger] totals[j] == 1 by {
                assert(perft_count(after[j], 0, totals[j]));
            }
            lemma_total_of_ones(totals);
        }
        assert(lists_moves(start, move_generator, moves@));
        assert(first_moves(result.1@) =~= moves@);
        let d = (depth - 1) as nat;
        let c = result.1@;
        assert forall|j: int| 0 <= j < c.len() implies counted_after(start, (#[trigger] c[j]).0, d, c[j].1) by {
            assert(is_made(start, c[j].0, after[j]));
        }
    }
    result
}

/// Adding up ones counts them, as long as there are fewer than 2^64.
proof fn lemma_total_of_ones(counts: Seq<u64>)
    requires
        counts.len() <= u64::MAX,
        forall|j: int| 0 <= j < counts.len() ==> #[trigger] counts[j] == 1,
    ensures
        wrapping_total(counts) == counts.len(),
    decreases counts.len(),
{
    if counts.len() > 0 {
        lemma_total_of_ones(counts.drop_last());
    }
}


/// The sum of the counts.
pub open spec fn total(counts: Seq<u64>) -> int
    decreases counts.len(),
{
    if counts.len() == 0 {
        0
    } else {
        total(counts.drop_last()) + counts.last()
    }
}

/// Adding modulo 2^64 gives the sum modulo 2^64.
proof fn lemma_wrapping_total_is_total(counts: Seq<u64>)
    ensures
        wrapping_total(counts) as int == total(counts) % 0x1_0000_0000_0000_0000,
    decreases counts.len(),
{
    if counts.len() > 0 {
        let rest = counts.drop_last();
        lemma_wrapping_total_is_total(rest);
        vstd::arithmetic::div_mod::lemma_add_mod_noop(total(rest), counts.last() as int, 0x1_0000_0000_0000_0000);
        assert((counts.last() as int) % 0x1_0000_0000_0000_0000 == counts.last());
    }
}

/// Taking one count out of the sum leaves the sum less that count.
proof fn lemma_total_remove(s: Seq<u64>, j: int)
    requires
        0 <= j < s.len(),
    ensures
        total(s) == total(s.remove(j)) + s[j],
    decreases s.len(),
{
    if j == s.len() - 1 {
        assert(s.remove(j) =~= s.drop_last());
    } else {
        lemma_total_remove(s.drop_last(), j);
        assert(s.remove(j).drop_last() =~= s.drop_last().remove(j));
        assert(s.remove(j).last() == s.last());
    }
}

/// Two listings of the same moves, each once, with equal counts for equal moves, have the same
/// sum of counts.
proof fn lemma_totals_agree(ms1: Seq<Move>, c1: Seq<u64>, ms2: Seq<Move>, c2: Seq<u64>)
    requires
        ms1.no_duplicates(),
        ms2.no_duplicates(),
        forall|m: Move| #[trigger] ms1.contains(m) == ms2.contains(m),
        c1.len() == ms1.len(),
        c2.len() == ms2.len(),
        forall|i: int, j: int| 0 <= i < ms1.len() && 0 <= j < ms2.len() && #[trigger] ms1[i] == #[trigger] ms2[j] ==> c1[i] == c2[j],
    ensures
        total(c1) == total(c2),
    decreases ms1.len(),
{
    if ms1.len() == 0 {
        if ms2.len() > 0 {
            assert(ms2.contains(ms2[0]));
            assert(ms1.contains(ms2[0]) == ms2.contains(ms2[0]));
        }
        assert(total(c1) == 0 && total(c2) == 0);
    } else {
        let n = ms1.len() - 1;
        let m = ms1[n];
        assert(ms1.contains(m));
        let j = choose|j: int| 0 <= j < ms2.len() && ms2[j] == m;
        let ms1p = ms1.drop_last();
        let c1p = c1.drop_last();
        let ms2p = ms2.remove(j);
        let c2p = c2.remove(j);
        assert forall|x: Move| #[trigger] ms1p.contains(x) == ms2p.contains(x) by {
            if ms1p.contains(x) {
                let i = choose|i: int| 0 <= i < ms1p.len() && ms1p[i] == x;
                assert(ms1[i] == x && i != n);
                assert(ms1.contains(x));
                let k = choose|k: int| 0 <= k < ms2.len() && ms2[k] == x;
                assert(k != j);
                if k < j {
                    assert(ms2p[k] == x);
                } else {
                    assert(ms2p[k - 1] == x);
                }
            }
            if ms2p.contains(x) {
                let k = choose|k: int| 0 <= k < ms2p.len() && ms2p[k] == x;
                let k2 = if k < j { k } else { k + 1 };
                assert(ms2[k2] == x && k2 != j);
                assert(ms2.contains(x));
                assert(ms1.contains(x));
                assert(x != m);
                let i = choose|i: int| 0 <= i < ms1.len() && ms1[i] == x;
                assert(i != n);
                assert(ms1p[i] == x);
            }
        }
        assert forall|i: int, k: int| 0 <= i < ms1p.len() && 0 <= k < ms2p.len() && #[trigger] ms1p[i] == #[trigger] ms2p[k]
            implies c1p[i] == c2p[k] by {
            let k2 = if k < j { k } else { k + 1 };
            assert(ms2p[k] == ms2[k2]);
            assert(c2p[k] == c2[k2]);
        }
        assert(ms2p.no_duplicates()) by {
            assert forall|a: int, c: int| 0 <= a < ms2p.len() && 0 <= c < ms2p.len() && a != c implies ms2p[a] != ms2p[c] by {
                let a2 = if a < j { a } else { a + 1 };
                let c2_ = if c < j { c } else { c + 1 };
                assert(ms2p[a] == ms2[a2] && ms2p[c] == ms2[c2_]);
            }
        }
        lemma_totals_agree(ms1p, c1p, ms2p, c2p);
        lemma_total_remove(c2, j);
        assert(c1[n] == c2[j]);
        assert(total(c1) == total(c1p) + c1[n]);
    }
}

/// The number of paths from a position is determined: two counts of the paths of the same length
/// from the same position are equal.
pub proof fn lemma_perft_count_unique(b: Board, depth: nat, r1: u64, r2: u64)
    requires
        perft_count(b, depth, r1),
        perft_count(b, depth, r2),
    ensures
        r1 == r2,
    decreases depth,
{
    if depth == 0 || !playable(b) {
    } else if depth == 1 {
        let (g1, ms1) = choose|g: MoveGenerator, ms: Seq<Move>| #[trigger] lists_moves(b, g, ms) && r1 == ms.len();
        let (g2, ms2) = choose|g: MoveGenerator, ms: Seq<Move>| #[trigger] lists_moves(b, g, ms) && r2 == ms.len();
        lemma_describes_unique(b, g1, g2);
        ms1.unique_seq_to_set();
        ms2.unique_seq_to_set();
        assert(ms1.to_set() =~= ms2.to_set());
    } else {
        let (g1, ms1, a1, c1) = choose|g: MoveGenerator, ms: Seq<Move>, after: Seq<Board>, counts: Seq<u64>|
            #![trigger lists_moves(b, g, ms), after.len(), counts.len()]
            {
                &&& lists_moves(b, g, ms)
                &&& after.len() == ms.len()
                &&& counts.len() == ms.len()
                &&& forall|i: int|
                    0 <= i < ms.len() ==> is_made(b, ms[i], #[trigger] after[i]) && perft_count(
                        after[i],
                        (depth - 1) as nat,
                        counts[i],
                    )
                &&& r1 == wrapping_total(counts)
            };
        let (g2, ms2, a2, c2) = choose|g: MoveGenerator, ms: Seq<Move>, after: Seq<Board>, counts: Seq<u64>|
            #![trigger lists_moves(b, g, ms), after.len(), counts.len()]
            {
                &&& lists_moves(b, g, ms)
                &&& after.len() == ms.len()
                &&& counts.len() == ms.len()
                &&& forall|i: int|
                    0 <= i < ms.len() ==> is_made(b, ms[i], #[trigger] after[i]) && perft_count(
                        after[i],
                        (depth - 1) as nat,
                        counts[i],
                    )
                &&& r2 == wrapping_total(counts)
            };
        lemma_describes_unique(b, g1, g2);
        assert forall|i: int, j: int| 0 <= i < ms1.len() && 0 <= j < ms2.len() && #[trigger] ms1[i] == #[trigger] ms2[j]
            implies c1[i] == c2[j] by {
            assert(is_made(b, ms1[i], a1[i]));
            assert(is_made(b, ms2[j], a2[j]));
            lemma_made_unique(b, ms1[i], a1[i], a2[j]);
            lemma_perft_count_unique(a1[i], (depth - 1) as nat, c1[i], c2[j]);
        }
        lemma_totals_agree(ms1, c1, ms2, c2);
        lemma_wrapping_total_is_total(c1);
        lemma_wrapping_total_is_total(c2);
    }
}

} // verus!
