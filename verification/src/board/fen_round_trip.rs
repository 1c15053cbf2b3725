//! Reading a board's FEN text back gives the board's fields.
use vstd::prelude::*;
use vstd::seq_lib::lemma_concat_associative;
use crate::text::{digit_char, is_digit, digit_value, decimal, all_digits, digits_value, parse_unsigned, is_white_space, words, words_from};
use super::bit_board::{BitBoard, bit, lemma_bit_laws, lemma_bit_updates, lemma_bits_equal};
use super::fen::{parse_placement, rank_text, placement_text, char_piece, empty_bit_boards, empty_text};
use super::piece::{piece_of, fen_char_of, is_piece_char};
use super::{first_piece, pieces_disjoint};
use super::game_state::{CastlingRights, has_bit8, spec_castling_from_fen, rights_value, lemma_rights_bits};
use super::fen::{castling_text, fen_text, spec_from_fen, board_of_fields, FenFields, FenParseErr};
use super::square::{Square, parse_notation, lemma_parse_notation_of_notation};
use super::Board;

verus! {

/// Square `s` comes, in FEN reading order, before the square on `rank` and `file`: ranks from the
/// eighth down, files from a.
pub open spec fn read_before(s: int, rank: int, file: int) -> bool {
    s / 8 > rank || (s / 8 == rank && s % 8 < file)
}

/// `acc` holds exactly the pieces of `bbs` on the squares read before `rank`, `file`.
pub open spec fn read_so_far(acc: Seq<BitBoard>, bbs: Seq<BitBoard>, rank: int, file: int) -> bool {
    &&& acc.len() == 12
    &&& forall|p: int, s: int|
        0 <= p < 12 && 0 <= s < 64 ==> (#[trigger] bit(acc[p].0, s)) == (bit(bbs[p].0, s) && read_before(s, rank, file))
}

/// No piece numbered `lo..hi` stands where `first_piece` finds none.
proof fn lemma_first_piece_none(bbs: Seq<BitBoard>, sq: int, lo: int, hi: int)
    requires
        first_piece(bbs, sq, lo, hi) is None,
    ensures
        forall|p: int| lo <= p < hi ==> !(#[trigger] bbs[p]).has(sq),
    decreases hi - lo,
{
    if lo < hi {
        lemma_first_piece_none(bbs, sq, lo + 1, hi);
    }
}

/// The piece that `first_piece` finds stands on the square.
proof fn lemma_first_piece_some(bbs: Seq<BitBoard>, sq: int, lo: int, hi: int)
    requires
        0 <= lo,
        hi <= 12,
        first_piece(bbs, sq, lo, hi) is Some,
    ensures
        ({
            let q = first_piece(bbs, sq, lo, hi)->Some_0.spec_index();
            lo <= q < hi && bbs[q].has(sq)
        }),
    decreases hi - lo,
{
    if !bbs[lo].has(sq) {
        lemma_first_piece_some(bbs, sq, lo + 1, hi);
    }
}

/// The FEN letter of a piece number is a piece letter that reads back as that number.
proof fn lemma_fen_char(q: int)
    requires
        0 <= q < 12,
    ensures
        is_piece_char(fen_char_of(q)),
        !is_digit(fen_char_of(q)),
        fen_char_of(q) != '/',
        char_piece(fen_char_of(q)) == q,
        piece_of(q).spec_index() == q,
{
}

/// A digit from one to eight reads back as its value.
proof fn lemma_digit(e: int)
    requires
        1 <= e <= 8,
    ensures
        is_digit(digit_char(e)),
        digit_value(digit_char(e)) == e,
        digit_char(e) != '/',
{
}

/// Reading the text of one rank, from `file` with `e` empty squares pending, puts the rank's pieces
/// on the boards read so far, and ends the rank.
proof fn lemma_parse_rank(cs: Seq<char>, i: int, bbs: Seq<BitBoard>, rank: int, file: int, e: int, acc: Seq<BitBoard>) -> (acc2: Seq<BitBoard>)
    requires
        bbs.len() == 12,
        pieces_disjoint(bbs),
        0 <= rank < 8,
        0 <= e <= file <= 8,
        file - e < 8,
        forall|s: int, p: int| rank * 8 + file - e <= s < rank * 8 + file && 0 <= p < 12 ==> !(#[trigger] bbs[p].has(s)),
        read_so_far(acc, bbs, rank, file - e),
        0 <= i,
        i + rank_text(bbs, rank, file, e as nat).len() <= cs.len(),
        cs.subrange(i, i + rank_text(bbs, rank, file, e as nat).len()) == rank_text(bbs, rank, file, e as nat),
    ensures
        rank_text(bbs, rank, file, e as nat).len() >= 1,
        read_so_far(acc2, bbs, rank, 8),
        rank == 0 ==> parse_placement(cs, i, rank, file - e, acc) == Ok::<Seq<BitBoard>, FenParseErr>(acc2),
        rank > 0 ==> parse_placement(cs, i, rank, file - e, acc) == parse_placement(
            cs,
            i + rank_text(bbs, rank, file, e as nat).len(),
            rank - 1,
            0,
            acc2,
        ),
    decreases 8 - file,
{
    let text = rank_text(bbs, rank, file, e as nat);
    let sq = rank * 8 + file;
    if file >= 8 {
        lemma_digit(e);
        assert(text == seq![digit_char(e)]);
        assert(cs[i] == text[0]);
        assert forall|p: int, s: int| 0 <= p < 12 && 0 <= s < 64 implies (#[trigger] bit(acc[p].0, s)) == (bit(bbs[p].0, s)
            && read_before(s, rank, 8)) by {
            if s / 8 == rank && s % 8 >= file - e {
                assert(!bbs[p].has(s));
            }
        }
        acc
    } else {
        match first_piece(bbs, sq, 0, 12) {
            None => {
                lemma_first_piece_none(bbs, sq, 0, 12);
                assert(text == rank_text(bbs, rank, file + 1, (e + 1) as nat));
                lemma_parse_rank(cs, i, bbs, rank, file + 1, e + 1, acc)
            },
            Some(pc) => {
                lemma_first_piece_some(bbs, sq, 0, 12);
                let q = pc.spec_index();
                lemma_fen_char(q);
                let c = fen_char_of(q);
                let rest = rank_text(bbs, rank, file + 1, 0);
                assert(text == empty_text(e as nat) + seq![c] + rest);
                let j = if e > 0 { i + 1 } else { i };
                if e > 0 {
                    lemma_digit(e);
                    assert(cs[i] == text[0]);
                    assert(parse_placement(cs, i, rank, file - e, acc) == parse_placement(cs, i + 1, rank, file, acc));
                }
                assert(cs[j] == text[j - i]);
                assert(cs[j] == c);
                assert(read_so_far(acc, bbs, rank, file)) by {
                    assert forall|p: int, s: int| 0 <= p < 12 && 0 <= s < 64 implies (#[trigger] bit(acc[p].0, s))
                        == (bit(bbs[p].0, s) && read_before(s, rank, file)) by {
                        if s / 8 == rank && file - e <= s % 8 < file {
                            assert(!bbs[p].has(s));
                        }
                    }
                }
                let acc3 = acc.update(q, BitBoard(acc[q].0 | (1u64 << (sq as u64))));
                lemma_bit_updates(acc[q].0, sq as u64, 0);
                assert(read_so_far(acc3, bbs, rank, file + 1)) by {
                    assert forall|p: int, s: int| 0 <= p < 12 && 0 <= s < 64 implies (#[trigger] bit(acc3[p].0, s))
                        == (bit(bbs[p].0, s) && read_before(s, rank, file + 1)) by {
                        assert(sq / 8 == rank && sq % 8 == file);
                        assert(bit(acc[p].0, s) == (bit(bbs[p].0, s) && read_before(s, rank, file)));
                        if p == q {
                            assert(acc3[p].0 == acc[q].0 | (1u64 << (sq as u64)));
                            assert(bit(acc3[p].0, s) == (bit(acc[q].0, s) || s == sq));
                        } else {
                            assert(acc3[p] == acc[p]);
                            if s == sq {
                                assert(bbs[q].has(sq));
                                assert(!bbs[p].has(sq));
                            }
                        }
                    }
                }
                if file + 1 == 8 {
                    assert(rest == Seq::<char>::empty());
                    assert(text.len() == j - i + 1);
                    acc3
                } else {
                    assert(parse_placement(cs, j, rank, file, acc) == parse_placement(cs, j + 1, rank, file + 1, acc3));
                    assert(cs.subrange(j + 1, j + 1 + rest.len()) == rest) by {
                        assert(cs.subrange(j + 1, j + 1 + rest.len()) =~= text.subrange(j + 1 - i, text.len() as int));
                        assert(text.subrange(j + 1 - i, text.len() as int) =~= rest);
                    }
                    lemma_parse_rank(cs, j + 1, bbs, rank, file + 1, 0, acc3)
                }
            },
        }
    }
}


/// Reading the placement text of ranks `rank` down to the first puts every piece of `bbs` on the
/// boards read so far.
proof fn lemma_parse_ranks(cs: Seq<char>, i: int, bbs: Seq<BitBoard>, rank: int, acc: Seq<BitBoard>) -> (acc2: Seq<BitBoard>)
    requires
        bbs.len() == 12,
        pieces_disjoint(bbs),
        0 <= rank < 8,
        read_so_far(acc, bbs, rank, 0),
        0 <= i,
        i + placement_text(bbs, rank).len() <= cs.len(),
        cs.subrange(i, i + placement_text(bbs, rank).len()) == placement_text(bbs, rank),
    ensures
        read_so_far(acc2, bbs, 0, 8),
        parse_placement(cs, i, rank, 0, acc) == Ok::<Seq<BitBoard>, FenParseErr>(acc2),
    decreases rank,
{
    let text = placement_text(bbs, rank);
    let first = rank_text(bbs, rank, 0, 0);
    if rank == 0 {
        lemma_parse_rank(cs, i, bbs, rank, 0, 0, acc)
    } else {
        let rest = placement_text(bbs, rank - 1);
        assert(text == first + seq!['/'] + rest);
        assert(cs.subrange(i, i + first.len()) == first) by {
            assert(cs.subrange(i, i + first.len()) =~= text.subrange(0, first.len() as int));
            assert(text.subrange(0, first.len() as int) =~= first);
        }
        let acc3 = lemma_parse_rank(cs, i, bbs, rank, 0, 0, acc);
        let k = i + first.len();
        assert(cs[k] == text[first.len() as int]);
        assert(cs[k] == '/');
        assert(cs.subrange(k + 1, k + 1 + rest.len()) == rest) by {
            assert(cs.subrange(k + 1, k + 1 + rest.len()) =~= text.subrange(first.len() as int + 1, text.len() as int));
            assert(text.subrange(first.len() as int + 1, text.len() as int) =~= rest);
        }
        assert(read_so_far(acc3, bbs, rank - 1, 0)) by {
            assert forall|p: int, s: int| 0 <= p < 12 && 0 <= s < 64 implies (#[trigger] bit(acc3[p].0, s))
                == (bit(bbs[p].0, s) && read_before(s, rank - 1, 0)) by {
                assert(bit(acc3[p].0, s) == (bit(bbs[p].0, s) && read_before(s, rank, 8)));
            }
        }
        lemma_parse_ranks(cs, k + 1, bbs, rank - 1, acc3)
    }
}

/// The piece placement text of bit boards with no square held twice reads back as those boards.
proof fn lemma_parse_placement_text(bbs: Seq<BitBoard>)
    requires
        bbs.len() == 12,
        pieces_disjoint(bbs),
    ensures
        parse_placement(placement_text(bbs, 7), 0, 7, 0, empty_bit_boards()) == Ok::<Seq<BitBoard>, FenParseErr>(bbs),
{
    let cs = placement_text(bbs, 7);
    lemma_bit_laws();
    assert(read_so_far(empty_bit_boards(), bbs, 7, 0)) by {
        assert forall|p: int, s: int| 0 <= p < 12 && 0 <= s < 64 implies (#[trigger] bit(empty_bit_boards()[p].0, s))
            == (bit(bbs[p].0, s) && read_before(s, 7, 0)) by {
            assert(empty_bit_boards()[p].0 == 0);
            assert(bit(0u64, s) == false);
        }
    }
    assert(cs.subrange(0, cs.len() as int) =~= cs);
    let acc = lemma_parse_ranks(cs, 0, bbs, 7, empty_bit_boards());
    assert forall|p: int| 0 <= p < 12 implies #[trigger] acc[p] == bbs[p] by {
        assert forall|s: int| 0 <= s < 64 implies #[trigger] bit(acc[p].0, s) == bit(bbs[p].0, s) by {
            assert(read_before(s, 0, 8));
        }
        lemma_bits_equal(acc[p].0, bbs[p].0);
    }
    assert(acc =~= bbs);
}


/// Characters none of which is white space.
pub open spec fn no_white_space(s: Seq<char>) -> bool {
    forall|i: int| 0 <= i < s.len() ==> !is_white_space(#[trigger] s[i])
}

/// A number's decimal digits read back as the number.
pub proof fn lemma_decimal_reads_back(n: nat, max: nat)
    requires
        n <= max,
    ensures
        decimal(n).len() >= 1,
        all_digits(decimal(n)),
        no_white_space(decimal(n)),
        digits_value(decimal(n)) == n,
        parse_unsigned(decimal(n), max) == Some(n),
    decreases n,
{
    let d = decimal(n);
    let last = (n % 10) as int;
    assert(digit_value(digit_char(last)) == last);
    if n < 10 {
        assert(d.drop_last() =~= Seq::<char>::empty());
        assert(digits_value(d) == digits_value(d.drop_last()) * 10 + (digit_value(d.last()) as nat));
    } else {
        lemma_decimal_reads_back(n / 10, max);
        let front = decimal(n / 10);
        assert(d == front.push(digit_char((n % 10) as int)));
        assert(d.drop_last() =~= front);
        assert(digits_value(d) == digits_value(front) * 10 + (digit_value(d.last()) as nat));
        assert forall|i: int| 0 <= i < d.len() implies is_digit(#[trigger] d[i]) by {
            if i < front.len() {
                assert(d[i] == front[i]);
            }
        }
    }
    assert(no_white_space(d));
    assert(is_digit(d[0]));
    assert(d[0] != '+');
}

/// The text of a word, a space and the rest splits into the word and the words of the rest.
proof fn lemma_words_from_word(w: Seq<char>, rest: Seq<char>, cur: Seq<char>)
    requires
        no_white_space(w),
    ensures
        words_from(w + rest, cur) == words_from(rest, cur + w),
    decreases w.len(),
{
    if w.len() > 0 {
        let s = w + rest;
        assert(s[0] == w[0]);
        assert(s.drop_first() =~= w.drop_first() + rest);
        lemma_words_from_word(w.drop_first(), rest, cur.push(w[0]));
        assert(cur.push(w[0]) + w.drop_first() =~= cur + w);
    } else {
        assert(w + rest =~= rest);
        assert(cur + w =~= cur);
    }
}

/// A non-empty word without white space, then a space and the rest: the word, then the words of
/// the rest.
proof fn lemma_words_split(w: Seq<char>, rest: Seq<char>)
    requires
        w.len() >= 1,
        no_white_space(w),
    ensures
        words(w + (seq![' '] + rest)) == seq![w] + words(rest),
{
    lemma_words_from_word(w, seq![' '] + rest, Seq::empty());
    assert(Seq::<char>::empty() + w =~= w);
    let t = seq![' '] + rest;
    assert(t[0] == ' ');
    assert(t.drop_first() =~= rest);
}

/// A non-empty word without white space is its only word.
proof fn lemma_words_single(w: Seq<char>)
    requires
        w.len() >= 1,
        no_white_space(w),
    ensures
        words(w) == seq![w],
{
    lemma_words_from_word(w, Seq::empty(), Seq::empty());
    assert(w + Seq::<char>::empty() =~= w);
    assert(Seq::<char>::empty() + w =~= w);
}


/// No character of a rank's text is white space.
proof fn lemma_rank_text_plain(bbs: Seq<BitBoard>, rank: int, file: int, e: int)
    requires
        0 <= e <= file <= 8,
    ensures
        no_white_space(rank_text(bbs, rank, file, e as nat)),
    decreases 8 - file,
{
    let text = rank_text(bbs, rank, file, e as nat);
    let head = empty_text(e as nat);
    assert(no_white_space(head)) by {
        if e > 0 {
            lemma_digit(e);
            assert(head[0] == digit_char(e));
        }
    }
    if file < 8 {
        match first_piece(bbs, rank * 8 + file, 0, 12) {
            Some(p) => {
                lemma_rank_text_plain(bbs, rank, file + 1, 0);
                let q = p.spec_index();
                assert(0 <= q < 12);
                lemma_fen_char(q);
                let rest = rank_text(bbs, rank, file + 1, 0);
                assert(text == head + seq![fen_char_of(q)] + rest);
                assert forall|i: int| 0 <= i < text.len() implies !is_white_space(#[trigger] text[i]) by {
                    if i < head.len() {
                        assert(text[i] == head[i]);
                    } else if i == head.len() {
                        assert(text[i] == fen_char_of(q));
                    } else {
                        assert(text[i] == rest[i - head.len() - 1]);
                    }
                }
            },
            None => {
                lemma_rank_text_plain(bbs, rank, file + 1, e + 1);
            },
        }
    }
}

/// No character of the placement text is white space, and it is not empty.
proof fn lemma_placement_text_plain(bbs: Seq<BitBoard>, rank: int)
    requires
        0 <= rank < 8,
    ensures
        no_white_space(placement_text(bbs, rank)),
        placement_text(bbs, rank).len() >= 1,
    decreases rank,
{
    let text = placement_text(bbs, rank);
    let first = rank_text(bbs, rank, 0, 0);
    lemma_rank_text_plain(bbs, rank, 0, 0);
    if rank == 0 {
        lemma_rank_text_nonempty(bbs, rank, 0, 0);
    } else {
        lemma_placement_text_plain(bbs, rank - 1);
        let rest = placement_text(bbs, rank - 1);
        assert(text == first + seq!['/'] + rest);
        assert forall|i: int| 0 <= i < text.len() implies !is_white_space(#[trigger] text[i]) by {
            if i < first.len() {
                assert(text[i] == first[i]);
            } else if i == first.len() {
                assert(text[i] == '/');
            } else {
                assert(text[i] == rest[i - first.len() - 1]);
            }
        }
    }
}

/// A rank's text from a square of the rank, or with empty squares pending, is not empty.
proof fn lemma_rank_text_nonempty(bbs: Seq<BitBoard>, rank: int, file: int, e: int)
    requires
        0 <= e <= file <= 8,
        file - e < 8,
    ensures
        rank_text(bbs, rank, file, e as nat).len() >= 1,
    decreases 8 - file,
{
    if file < 8 {
        match first_piece(bbs, rank * 8 + file, 0, 12) {
            Some(p) => {},
            None => {
                lemma_rank_text_nonempty(bbs, rank, file + 1, e + 1);
            },
        }
    }
}


/// A character occurs in two joined sequences when it occurs in one of them.
proof fn lemma_contains_join(a: Seq<char>, b: Seq<char>, c: char)
    ensures
        (a + b).contains(c) == (a.contains(c) || b.contains(c)),
{
    let ab = a + b;
    if a.contains(c) {
        let i = choose|i: int| 0 <= i < a.len() && a[i] == c;
        assert(ab[i] == c);
    }
    if b.contains(c) {
        let i = choose|i: int| 0 <= i < b.len() && b[i] == c;
        assert(ab[a.len() + i] == c);
    }
    if ab.contains(c) {
        let i = choose|i: int| 0 <= i < ab.len() && ab[i] == c;
        if i < a.len() {
            assert(a[i] == c);
        } else {
            assert(b[i - a.len()] == c);
        }
    }
}

/// The letter `ch` when `on`, else nothing.
pub open spec fn letter_if(on: bool, ch: char) -> Seq<char> {
    if on {
        seq![ch]
    } else {
        Seq::empty()
    }
}

/// What a letter that may be left out holds.
proof fn lemma_letter_if(on: bool, ch: char, c: char)
    ensures
        letter_if(on, ch).contains(c) == (on && c == ch),
{
    if on && c == ch {
        assert(letter_if(on, ch)[0] == ch);
    }
}

/// The castling field of four-bit rights reads back as the rights.
proof fn lemma_castling_reads_back(r: CastlingRights)
    requires
        r.valid(),
    ensures
        castling_text(r).len() >= 1,
        no_white_space(castling_text(r)),
        spec_castling_from_fen(castling_text(r)) == r,
{
    let v = r.0;
    let text = castling_text(r);
    lemma_rights_bits();
    if v == 0 {
        assert(text == seq!['-']);
        assert(no_white_space(text)) by {
            assert(text[0] == '-');
        }
    } else {
        let a = letter_if(has_bit8(v, 0), 'K');
        let b = letter_if(has_bit8(v, 1), 'Q');
        let c = letter_if(has_bit8(v, 2), 'k');
        let d = letter_if(has_bit8(v, 3), 'q');
        assert(text == a + b + c + d);
        assert forall|x: char| #[trigger] text.contains(x) == ((has_bit8(v, 0) && x == 'K') || (has_bit8(v, 1) && x == 'Q')
            || (has_bit8(v, 2) && x == 'k') || (has_bit8(v, 3) && x == 'q')) by {
            lemma_contains_join(a + b + c, d, x);
            lemma_contains_join(a + b, c, x);
            lemma_contains_join(a, b, x);
            lemma_letter_if(has_bit8(v, 0), 'K', x);
            lemma_letter_if(has_bit8(v, 1), 'Q', x);
            lemma_letter_if(has_bit8(v, 2), 'k', x);
            lemma_letter_if(has_bit8(v, 3), 'q', x);
        }
        assert(has_bit8(v, 0) == (v % 2 == 1));
        assert(has_bit8(v, 1) == ((v / 2) % 2 == 1));
        assert(has_bit8(v, 2) == ((v / 4) % 2 == 1));
        assert(has_bit8(v, 3) == (v / 8 == 1));
        assert(text.contains('K') || text.contains('Q') || text.contains('k') || text.contains('q'));
        assert(!text.contains('-'));
        assert(seq!['-'][0] == '-');
        assert(text != seq!['-']);
        assert forall|i: int| 0 <= i < text.len() implies !is_white_space(#[trigger] text[i]) by {
            assert(text.contains(text[i]));
        }
        assert(rights_value(text.contains('K'), text.contains('Q'), text.contains('k'), text.contains('q')) == v);
    }
}


/// The notation of a square on the board: two characters, neither white space, and not `-`.
proof fn lemma_notation_plain(sq: Square)
    requires
        sq.valid(),
    ensures
        sq.notation().len() == 2,
        no_white_space(sq.notation()),
        sq.notation() != seq!['-'],
        parse_notation(sq.notation()) == Ok::<Square, &'static str>(sq),
{
    lemma_parse_notation_of_notation(sq);
    let rank = sq.spec_rank();
    let n = sq.notation();
    assert(0 <= rank < 8);
    lemma_decimal_reads_back((rank + 1) as nat, 8);
    assert(n[0] as int == 97 + sq.spec_file());
    assert(n[1] == decimal((rank + 1) as nat)[0]);
    assert(seq!['-'][0] == '-');
}

/// The en passant field of a FEN.
pub open spec fn en_passant_text(sq: Option<Square>) -> Seq<char> {
    match sq {
        Some(square) => square.notation(),
        None => seq!['-'],
    }
}

/// The side to move field of a FEN.
pub open spec fn side_text(white: bool) -> Seq<char> {
    if white {
        seq!['w']
    } else {
        seq!['b']
    }
}

/// The six words of a board's FEN text.
proof fn lemma_fen_words(b: Board)
    requires
        b.game_state.castling_rights.valid(),
        b.game_state.en_passant_square matches Some(sq) ==> sq.valid(),
    ensures
        words(fen_text(b)) == seq![
            placement_text(b.bit_boards@, 7),
            side_text(b.white_to_move),
            castling_text(b.game_state.castling_rights),
            en_passant_text(b.game_state.en_passant_square),
            decimal(b.game_state.half_move_clock as nat),
            decimal(b.full_move_counter as nat),
        ],
{
    let p = placement_text(b.bit_boards@, 7);
    let side = side_text(b.white_to_move);
    let c = castling_text(b.game_state.castling_rights);
    let e = en_passant_text(b.game_state.en_passant_square);
    let h = decimal(b.game_state.half_move_clock as nat);
    let f = decimal(b.full_move_counter as nat);
    let sp = seq![' '];
    lemma_placement_text_plain(b.bit_boards@, 7);
    lemma_castling_reads_back(b.game_state.castling_rights);
    lemma_decimal_reads_back(b.game_state.half_move_clock as nat, u64::MAX as nat);
    lemma_decimal_reads_back(b.full_move_counter as nat, u32::MAX as nat);
    assert(no_white_space(side) && side.len() == 1) by {
        assert(side[0] == 'w' || side[0] == 'b');
    }
    match b.game_state.en_passant_square {
        Some(square) => {
            lemma_notation_plain(square);
        },
        None => {
            assert(no_white_space(e)) by {
                assert(e[0] == '-');
            }
        },
    }
    let r5 = h + (sp + f);
    let r4 = e + (sp + r5);
    let r3 = c + (sp + r4);
    let r2 = side + (sp + r3);
    let w = seq![' ', side[0], ' '];
    assert(w + r3 =~= sp + r2);
    let x1 = p + w;
    let x2 = x1 + c;
    let x3 = x2 + sp;
    let x4 = x3 + e;
    let x5 = x4 + sp;
    let x6 = x5 + h;
    let x7 = x6 + sp;
    assert(fen_text(b) == x7 + f);
    lemma_concat_associative(x6, sp, f);
    lemma_concat_associative(x5, h, sp + f);
    lemma_concat_associative(x4, sp, r5);
    lemma_concat_associative(x3, e, sp + r5);
    lemma_concat_associative(x2, sp, r4);
    lemma_concat_associative(x1, c, sp + r4);
    lemma_concat_associative(p, w, r3);
    assert(fen_text(b) == p + (sp + r2));
    lemma_words_single(f);
    lemma_words_split(h, f);
    lemma_words_split(e, r5);
    lemma_words_split(c, r4);
    lemma_words_split(side, r3);
    lemma_words_split(p, r2);
    assert(words(fen_text(b)) =~= seq![p, side, c, e, h, f]);
}

/// Reading a board's FEN text back: for a board whose squares each hold at most one piece, whose
/// castling rights fit in four bits and whose en passant square, if any, is on the board, the FEN
/// text reads back as the board's pieces, side to move, castling rights, en passant square,
/// half-move clock and full-move counter; and any board read from it writes the same text again.
pub proof fn lemma_fen_round_trip(b: Board)
    requires
        pieces_disjoint(b.bit_boards@),
        b.game_state.castling_rights.valid(),
        b.game_state.en_passant_square matches Some(sq) ==> sq.valid(),
    ensures
        spec_from_fen(fen_text(b)) == Ok::<FenFields, FenParseErr>(
            (
                b.bit_boards@,
                b.white_to_move,
                b.game_state.castling_rights,
                b.game_state.en_passant_square,
                b.game_state.half_move_clock,
                b.full_move_counter,
            ),
        ),
        forall|b2: Board| #[trigger] board_of_fields(b2, spec_from_fen(fen_text(b))->Ok_0) ==> fen_text(b2) == fen_text(b),
{
    let bbs = b.bit_boards@;
    lemma_fen_words(b);
    let ws = words(fen_text(b));
    lemma_parse_placement_text(bbs);
    lemma_castling_reads_back(b.game_state.castling_rights);
    lemma_decimal_reads_back(b.game_state.half_move_clock as nat, u64::MAX as nat);
    lemma_decimal_reads_back(b.full_move_counter as nat, u32::MAX as nat);
    assert(seq!['w'] != seq!['b']) by {
        assert(seq!['w'][0] != seq!['b'][0]);
    }
    match b.game_state.en_passant_square {
        Some(square) => {
            lemma_notation_plain(square);
        },
        None => {},
    }
    assert(ws[0] == placement_text(bbs, 7));
    assert(ws[1] == side_text(b.white_to_move));
    assert(ws[3] == en_passant_text(b.game_state.en_passant_square));
}

} // verus!
