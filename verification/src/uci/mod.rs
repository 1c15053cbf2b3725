//! The Universal Chess Interface: reading commands and writing moves.
use vstd::prelude::*;
use core::ops::Range;
use std::sync::Arc;
use std::sync::atomic::{AtomicBool, Ordering};
use crate::board::Board;
use crate::board::zobrist::Zobrist;
use crate::board::fen::{FenParseErr, spec_from_fen, board_of_fields};
use crate::board::square::{Square, parse_notation};
use crate::move_generator::move_data::{Flag, Move, promotion_piece};
use crate::board::piece::fen_char_of;
use crate::move_generator::maker::{is_made, make_move_allowed, lemma_made_unique};
use crate::search::Search;
use crate::search::eval_data::EvalNumber;
use crate::search::time_manager::{IMMEDIATE_CHECKMATE_SCORE, is_mate_score, TimeManager, NodeLimit, RealTime, calculate_time};
use crate::timer::Time;
use self::go_params::{GoParameters, SearchTime, SearchType};
use self::move_encoding::{decode_move, decoded_flag};
use crate::search::transposition::{megabytes_to_capacity, capacity_for};
use crate::text::{
    chars_of, decimal, push_decimal, push_str, split_words, words, trim, trim_chars, find, find_chars, ascii_lower,
    equals_ascii_lowercase, parse_unsigned, parse_unsigned_exec, lemma_find_from_found,
};

pub mod go_params;
pub mod move_encoding;

verus! {

/// A value within a range, and its default.
pub struct SpinU16 {
    /// The values allowed.
    pub range: Range<u16>,
    /// The value when none is set.
    pub default: u16,
}

impl SpinU16 {
    /// A value within `range` whose default is `default`, which the range must hold.
    pub fn new(range: Range<u16>, default: u16) -> (r: Self)
        requires
            range.start <= default < range.end,
        ensures
            r.range == range,
            r.default == default,
    {
        SpinU16 { range, default }
    }
}

/// Whether pondering is allowed, and the flag that says the engine ponders.
#[derive(Clone)]
pub struct PonderInfo {
    /// Whether the GUI allows pondering.
    pub ponder_allowed: bool,
    /// Set while the engine ponders.
    pub is_pondering: Arc<AtomicBool>,
}

/// Why a UCI command was refused.
#[derive(Clone, Copy, PartialEq, Eq, Structural, Debug)]
pub enum UciError {
    /// `setoption` without `name `.
    MissingOptionName,
    /// ` value ` comes before the option's name ends.
    ValueBeforeName,
    /// An option that needs a value has none.
    MissingValue,
    /// A value that is no number, or no `true` or `false`.
    InvalidValue,
    /// A hash size outside its range.
    HashOutOfRange,
    /// More than one thread.
    UnsupportedThreads,
    /// An option that does not exist, without ` value `.
    UnknownOptionWithoutValue,
    /// An option that does not exist.
    UnknownOption,
    /// A move that is no pair of squares.
    InvalidMoveNotation,
    /// A promotion letter that is not `q`, `r`, `n` or `b`.
    InvalidPromotion,
    /// `go` before any `position`.
    NoPosition,
    /// The position's FEN was refused.
    InvalidFen(FenParseErr),
    /// A move with no friendly piece to move, or that cannot be made.
    IllegalMove,
    /// `go` with neither search limits nor `perft`.
    NoSearchType,
}

/// Handles UCI input and works out what to answer.
pub struct UCIProcessor {
    /// FEN to be used.
    pub fen: Option<String>,
    /// Moves to be played after the FEN: from, to and promotion.
    pub moves: Vec<(Square, Square, Flag)>,
    /// Range and default size of the transposition table in megabytes.
    pub hash_option: SpinU16,
    /// Maximum entry count of the transposition table.
    pub transposition_capacity: usize,
    /// Set when the search must stop.
    pub stopped: Arc<AtomicBool>,
    /// Whether pondering is allowed, and whether the engine ponders.
    pub ponder_info: PonderInfo,
}

/// The text answering `uci`: the engine's name and version, its options, and `uciok`.
pub open spec fn uci_text(name: Seq<char>, version: Seq<char>, default_hash: nat, min_hash: nat, max_hash: nat) -> Seq<char> {
    "id name "@ + name + " "@ + version + "\nid author someone\noption name Hash type spin default "@ + decimal(
        default_hash,
    ) + " min "@ + decimal(min_hash) + " max "@ + decimal(max_hash)
        + "\noption name Ponder type check default false\noption name Threads type spin default 1 min 1 max 1\nuciok"@
}

/// The name and the value, if any, of `setoption`'s arguments: after `name ` up to ` value `,
/// and after ` value ` to the end.
pub open spec fn option_parts(args: Seq<char>) -> Result<(Seq<char>, Option<Seq<char>>), UciError> {
    let t = trim(args);
    match find(t, "name "@) {
        None => Err(UciError::MissingOptionName),
        Some(n) => match find(t, " value "@) {
            Some(v) => if v < n + 5 {
                Err(UciError::ValueBeforeName)
            } else {
                Ok((t.subrange(n + 5, v), Some(t.subrange(v + 7, t.len() as int))))
            },
            None => Ok((t.subrange(n + 5, t.len() as int), None)),
        },
    }
}

/// The name of an option as it is compared: trimmed, in ASCII lower case.
pub open spec fn option_key(name: Seq<char>) -> Seq<char> {
    trim(name).map_values(|c: char| ascii_lower(c))
}

/// What `setoption` with `args` makes of the transposition capacity and whether pondering is
/// allowed, given the hash range.
pub open spec fn option_outcome(p: UCIProcessor, args: Seq<char>) -> Result<(usize, bool), UciError> {
    match option_parts(args) {
        Err(e) => Err(e),
        Ok((name, value)) => {
            let key = option_key(name);
            if key == "hash"@ {
                match value {
                    None => Err(UciError::MissingValue),
                    Some(v) => match parse_unsigned(v, u16::MAX as nat) {
                        None => Err(UciError::InvalidValue),
                        Some(megabytes) => if p.hash_option.range.start <= megabytes < p.hash_option.range.end {
                            Ok((capacity_for(megabytes as int) as usize, p.ponder_info.ponder_allowed))
                        } else {
                            Err(UciError::HashOutOfRange)
                        },
                    },
                }
            } else if key == "threads"@ {
                match value {
                    None => Err(UciError::MissingValue),
                    Some(v) => match parse_unsigned(v, u16::MAX as nat) {
                        None => Err(UciError::InvalidValue),
                        Some(threads) => if threads == 1 {
                            Ok((p.transposition_capacity, p.ponder_info.ponder_allowed))
                        } else {
                            Err(UciError::UnsupportedThreads)
                        },
                    },
                }
            } else if key == "ponder"@ {
                match value {
                    None => Err(UciError::MissingValue),
                    Some(v) => if v == "true"@ {
                        Ok((p.transposition_capacity, true))
                    } else if v == "false"@ {
                        Ok((p.transposition_capacity, false))
                    } else {
                        Err(UciError::InvalidValue)
                    },
                }
            } else if value is None {
                Err(UciError::UnknownOptionWithoutValue)
            } else {
                Err(UciError::UnknownOption)
            }
        },
    }
}

/// The promotion given by the characters after a move's squares.
pub open spec fn promotion_of(rest: Seq<char>) -> Result<Flag, UciError> {
    if rest.len() == 0 {
        Ok(Flag::Normal)
    } else if rest[0] == 'q' {
        Ok(Flag::QueenPromotion)
    } else if rest[0] == 'r' {
        Ok(Flag::RookPromotion)
    } else if rest[0] == 'n' {
        Ok(Flag::KnightPromotion)
    } else if rest[0] == 'b' {
        Ok(Flag::BishopPromotion)
    } else {
        Err(UciError::InvalidPromotion)
    }
}

/// A promotion letter names the piece promoted to by that piece's own FEN letter: reading `q`,
/// `r`, `b` or `n` gives the promotion whose piece (for black, whose letters are lower case) has
/// that letter; any other letter is refused, and no letter is no promotion.
pub proof fn lemma_promotion_letters(c: char)
    ensures
        (c == 'q' || c == 'r' || c == 'b' || c == 'n') ==> promotion_of(seq![c]) is Ok && promotion_piece(
            promotion_of(seq![c])->Ok_0,
            false,
        ) is Some && fen_char_of(promotion_piece(promotion_of(seq![c])->Ok_0, false)->Some_0.spec_index()) == c,
        !(c == 'q' || c == 'r' || c == 'b' || c == 'n') ==> promotion_of(seq![c]) == Err::<Flag, UciError>(
            UciError::InvalidPromotion,
        ),
        promotion_of(Seq::empty()) == Ok::<Flag, UciError>(Flag::Normal),
{
    assert(seq![c][0] == c);
}

/// A move in UCI notation: two squares, then an optional promotion letter; what follows that is
/// ignored.
pub open spec fn parse_uci_move(t: Seq<char>) -> Result<(Square, Square, Flag), UciError> {
    if t.len() < 4 {
        Err(UciError::InvalidMoveNotation)
    } else {
        match (parse_notation(t.subrange(0, 2)), parse_notation(t.subrange(2, 4))) {
            (Ok(from), Ok(to)) => match promotion_of(t.subrange(4, t.len() as int)) {
                Ok(flag) => Ok((from, to, flag)),
                Err(e) => Err(e),
            },
            _ => Err(UciError::InvalidMoveNotation),
        }
    }
}

/// The moves of the words from position `i` on.
pub open spec fn moves_from(ws: Seq<Seq<char>>, i: nat) -> Result<Seq<(Square, Square, Flag)>, UciError>
    decreases ws.len() - i,
{
    if i >= ws.len() {
        Ok(Seq::empty())
    } else {
        match parse_uci_move(ws[i as int]) {
            Err(e) => Err(e),
            Ok(m) => match moves_from(ws, i + 1) {
                Err(e) => Err(e),
                Ok(rest) => Ok(seq![m] + rest),
            },
        }
    }
}

/// The moves of the words from position `i` on come in the order of the words, one for each word,
/// when every word is a move; a word that is no move refuses them all.
pub proof fn lemma_moves_in_order(ws: Seq<Seq<char>>, i: nat)
    requires
        i <= ws.len(),
    ensures
        (forall|j: int| i <= j < ws.len() ==> #[trigger] parse_uci_move(ws[j]) is Ok) ==> moves_from(ws, i) is Ok && (
        moves_from(ws, i)->Ok_0).len() == ws.len() - i && forall|k: int|
            0 <= k < ws.len() - i ==> #[trigger] (moves_from(ws, i)->Ok_0)[k] == parse_uci_move(ws[i + k])->Ok_0,
        (exists|j: int| i <= j < ws.len() && #[trigger] parse_uci_move(ws[j]) is Err) ==> moves_from(ws, i) is Err,
    decreases ws.len() - i,
{
    if i < ws.len() {
        lemma_moves_in_order(ws, i + 1);
        if exists|j: int| i <= j < ws.len() && #[trigger] parse_uci_move(ws[j]) is Err {
            let j = choose|j: int| i <= j < ws.len() && #[trigger] parse_uci_move(ws[j]) is Err;
            if j > i {
                assert(parse_uci_move(ws[j]) is Err);
            }
        }
        if forall|j: int| i <= j < ws.len() ==> #[trigger] parse_uci_move(ws[j]) is Ok {
            assert(parse_uci_move(ws[i as int]) is Ok);
            assert forall|j: int| i + 1 <= j < ws.len() implies #[trigger] parse_uci_move(ws[j]) is Ok by {}
            let rest = moves_from(ws, i + 1)->Ok_0;
            let ms = moves_from(ws, i)->Ok_0;
            assert(ms == seq![parse_uci_move(ws[i as int])->Ok_0] + rest);
            assert forall|k: int| 0 <= k < ws.len() - i implies #[trigger] ms[k] == parse_uci_move(ws[i + k])->Ok_0 by {
                if k > 0 {
                    assert(ms[k] == rest[k - 1]);
                    assert(i + 1 + (k - 1) == i + k);
                }
            }
        }
    }
}

/// The FEN words from `a` up to `b`, each followed by a space.
pub open spec fn spaced(ws: Seq<Seq<char>>, a: int, b: int) -> Seq<char>
    decreases b - a,
{
    if a >= b {
        Seq::empty()
    } else {
        spaced(ws, a, b - 1) + ws[b - 1] + seq![' ']
    }
}

/// A word that means something of its own to `position`.
pub open spec fn position_keyword(w: Seq<char>) -> bool {
    w == "startpos"@ || w == "fen"@ || w == "moves"@
}

/// `position startpos moves …` plays the moves from the start position, and `position fen …
/// moves …` from the position whose FEN is the words in between, spaced; with the moves in the
/// order given.
pub proof fn lemma_position_words(ws: Seq<Seq<char>>, k: int)
    requires
        2 <= k < ws.len() || (k == 1 && ws.len() >= 2),
        ws[k] == "moves"@,
        forall|j: int| 1 <= j < k ==> !position_keyword(#[trigger] ws[j]),
    ensures
        ws[0] == "startpos"@ && k == 1 ==> position_from(ws, 0, true, Seq::empty()) == match moves_from(ws, 2) {
            Ok(ms) => Ok((true, Seq::<char>::empty(), ms)),
            Err(e) => Err(e),
        },
        ws[0] == "fen"@ ==> position_from(ws, 0, true, Seq::empty()) == match moves_from(ws, (k + 1) as nat) {
            Ok(ms) => Ok((false, spaced(ws, 1, k), ms)),
            Err(e) => Err(e),
        },
{
    lemma_position_keywords_differ();
    if ws[0] == "startpos"@ && k == 1 {
        assert(position_from(ws, 1, true, Seq::empty()) == match moves_from(ws, 2) {
            Ok(ms) => Ok((true, Seq::<char>::empty(), ms)),
            Err(e) => Err::<(bool, Seq<char>, Seq<(Square, Square, Flag)>), UciError>(e),
        });
    }
    if ws[0] == "fen"@ {
        lemma_fen_words_read(ws, 1, k);
    }
}

/// The three words of `position` differ.
proof fn lemma_position_keywords_differ()
    ensures
        "startpos"@ != "moves"@,
        "fen"@ != "moves"@,
        "fen"@ != "startpos"@,
{
    reveal_strlit("startpos");
    reveal_strlit("fen");
    reveal_strlit("moves");
    assert("startpos"@.len() != "moves"@.len());
    assert("fen"@.len() != "moves"@.len());
    assert("fen"@.len() != "startpos"@.len());
}

/// Reading the FEN words from `j` on, up to `moves` at `k`, spaces them after what was read.
proof fn lemma_fen_words_read(ws: Seq<Seq<char>>, j: int, k: int)
    requires
        1 <= j <= k < ws.len(),
        ws[k] == "moves"@,
        forall|i: int| 1 <= i < k ==> !position_keyword(#[trigger] ws[i]),
    ensures
        position_from(ws, j as nat, false, spaced(ws, 1, j)) == match moves_from(ws, (k + 1) as nat) {
            Ok(ms) => Ok((false, spaced(ws, 1, k), ms)),
            Err(e) => Err(e),
        },
    decreases k - j,
{
    lemma_position_keywords_differ();
    if j < k {
        assert(!position_keyword(ws[j]));
        assert(spaced(ws, 1, j + 1) == spaced(ws, 1, j) + ws[j] + seq![' ']);
        lemma_fen_words_read(ws, j + 1, k);
    }
}

/// Reads `position`'s words from position `i` on: `startpos` and `fen` choose the start, other
/// words after `fen` build the FEN, each followed by a space, and all words after `moves` are
/// moves. Gives whether the start position was chosen, the FEN built and the moves.
pub open spec fn position_from(ws: Seq<Seq<char>>, i: nat, startpos: bool, fen: Seq<char>) -> Result<
    (bool, Seq<char>, Seq<(Square, Square, Flag)>),
    UciError,
>
    decreases ws.len() - i,
{
    if i >= ws.len() {
        Ok((startpos, fen, Seq::empty()))
    } else if ws[i as int] == "startpos"@ {
        position_from(ws, i + 1, true, fen)
    } else if ws[i as int] == "fen"@ {
        position_from(ws, i + 1, false, fen)
    } else if ws[i as int] == "moves"@ {
        match moves_from(ws, i + 1) {
            Ok(ms) => Ok((startpos, fen, ms)),
            Err(e) => Err(e),
        }
    } else {
        position_from(ws, i + 1, startpos, if startpos { fen } else { fen + ws[i as int] + seq![' '] })
    }
}

/// Whether the characters `w` are the string `lit`.
fn is_word(w: &Vec<char>, lit: &str) -> (r: bool)
    ensures
        r == (w@ == lit@),
{
    let l = chars_of(lit);
    if w.len() != l.len() {
        return false;
    }
    let mut i: usize = 0;
    while i < w.len()
        invariant
            i <= w@.len(),
            w@.len() == l@.len(),
            l@ == lit@,
            forall|j: int| 0 <= j < i ==> w@[j] == l@[j],
        decreases w@.len() - i,
    {
        if w[i] != l[i] {
            proof {
                assert(w@[i as int] != l@[i as int]);
            }
            return false;
        }
        i = i + 1;
    }
    proof {
        assert(w@ =~= l@);
    }
    true
}

/// The characters of `s` from `start` to `end`.
fn slice_chars(s: &Vec<char>, start: usize, end: usize) -> (r: Vec<char>)
    requires
        start <= end <= s@.len(),
    ensures
        r@ == s@.subrange(start as int, end as int),
{
    let mut r: Vec<char> = Vec::new();
    let mut i: usize = start;
    while i < end
        invariant
            start <= i <= end,
            end <= s@.len(),
            r@ == s@.subrange(start as int, i as int),
        decreases end - i,
    {
        r.push(s[i]);
        proof {
            assert(r@ =~= s@.subrange(start as int, i + 1));
        }
        i = i + 1;
    }
    r
}

/// [`parse_uci_move`] on characters.
fn read_uci_move(t: &Vec<char>) -> (r: Result<(Square, Square, Flag), UciError>)
    ensures
        r == parse_uci_move(t@),
{
    if t.len() < 4 {
        return Err(UciError::InvalidMoveNotation);
    }
    let from = Square::from_notation_chars(&slice_chars(t, 0, 2));
    let to = Square::from_notation_chars(&slice_chars(t, 2, 4));
    match (from, to) {
        (Ok(from), Ok(to)) => {
            let flag = if t.len() == 4 {
                Flag::Normal
            } else if t[4] == 'q' {
                Flag::QueenPromotion
            } else if t[4] == 'r' {
                Flag::RookPromotion
            } else if t[4] == 'n' {
                Flag::KnightPromotion
            } else if t[4] == 'b' {
                Flag::BishopPromotion
            } else {
                proof {
                    assert(t@.subrange(4, t@.len() as int)[0] == t@[4]);
                }
                return Err(UciError::InvalidPromotion);
            };
            proof {
                if t@.len() > 4 {
                    assert(t@.subrange(4, t@.len() as int)[0] == t@[4]);
                }
            }
            Ok((from, to, flag))
        },
        _ => Err(UciError::InvalidMoveNotation),
    }
}

impl UCIProcessor {
    /// The hash option's default lies in its range, and every size in it fits in bytes.
    pub open spec fn wf(self) -> bool {
        &&& self.hash_option.range.start <= self.hash_option.default < self.hash_option.range.end
        &&& self.hash_option.range.end as int * 1_000_000 <= usize::MAX
    }

    /// A processor with no position, the default hash size and pondering not allowed.
    pub fn new(hash_option: SpinU16) -> (r: Self)
        requires
            hash_option.range.start <= hash_option.default < hash_option.range.end,
            hash_option.range.end as int * 1_000_000 <= usize::MAX,
        ensures
            r.wf(),
            r.fen is None,
            r.moves@.len() == 0,
            r.hash_option == hash_option,
            r.transposition_capacity == capacity_for(hash_option.default as int),
            !r.ponder_info.ponder_allowed,
    {
        let megabytes = hash_option.default as usize;
        let transposition_capacity = megabytes_to_capacity(megabytes);
        UCIProcessor {
            fen: None,
            moves: Vec::new(),
            hash_option,
            transposition_capacity,
            stopped: Arc::new(AtomicBool::new(false)),
            ponder_info: PonderInfo { ponder_allowed: false, is_pondering: Arc::new(AtomicBool::new(false)) },
        }
    }

    /// The answer to `uci`: the engine's `name` and `version`, its options and `uciok`.
    pub fn uci(&self, name: &str, version: &str) -> (r: String)
        requires
            self.wf(),
        ensures
            r@ == uci_text(
                name@,
                version@,
                self.hash_option.default as nat,
                self.hash_option.range.start as nat,
                (self.hash_option.range.end - 1) as nat,
            ),
    {
        let mut text = String::new();
        push_str(&mut text, "id name ");
        push_str(&mut text, name);
        push_str(&mut text, " ");
        push_str(&mut text, version);
        push_str(&mut text, "\nid author someone\noption name Hash type spin default ");
        push_decimal(&mut text, self.hash_option.default as u64);
        push_str(&mut text, " min ");
        push_decimal(&mut text, self.hash_option.range.start as u64);
        push_str(&mut text, " max ");
        push_decimal(&mut text, (self.hash_option.range.end - 1) as u64);
        push_str(&mut text, "\noption name Ponder type check default false\noption name Threads type spin default 1 min 1 max 1\nuciok");
        proof {
            assert(text@ =~= uci_text(
                name@,
                version@,
                self.hash_option.default as nat,
                self.hash_option.range.start as nat,
                (self.hash_option.range.end - 1) as nat,
            ));
        }
        text
    }

    /// The answer to `isready`.
    pub fn isready(&self) -> (r: String)
        ensures
            r@ == "readyok"@,
    {
        let mut text = String::new();
        push_str(&mut text, "readyok");
        proof {
            assert(text@ =~= "readyok"@);
        }
        text
    }

    /// Sets an option from `setoption`'s arguments: `Hash` (megabytes within the range) sets the
    /// transposition capacity, `Threads` must be 1, `Ponder` (`true` or `false`) allows
    /// pondering. A refused command changes nothing. Where the UCI loop would stop on a bad option
    /// (an unknown name, `Threads` other than 1, a `Hash` size out of range), this returns the
    /// error instead, so that no verified function panics; the program reports it.
    pub fn setoption(&mut self, args: &str) -> (r: Result<(), UciError>)
        requires
            old(self).wf(),
        ensures
            final(self).wf(),
            final(self).fen == old(self).fen,
            final(self).moves == old(self).moves,
            final(self).hash_option == old(self).hash_option,
            final(self).stopped == old(self).stopped,
            final(self).ponder_info.is_pondering == old(self).ponder_info.is_pondering,
            match option_outcome(*old(self), args@) {
                Ok((capacity, ponder_allowed)) => r is Ok && final(self).transposition_capacity == capacity
                    && final(self).ponder_info.ponder_allowed == ponder_allowed,
                Err(e) => r == Err::<(), UciError>(e) && final(self).transposition_capacity == old(self).transposition_capacity
                    && final(self).ponder_info.ponder_allowed == old(self).ponder_info.ponder_allowed,
            },
    {
        let chars = chars_of(args);
        let trimmed = trim_chars(&chars);
        let trimmed_len = trimmed.len();
        let name_index = match find_chars(&trimmed, &chars_of("name ")) {
            Some(i) => i,
            None => {
                return Err(UciError::MissingOptionName);
            },
        };
        proof {
            reveal_strlit("name ");
            reveal_strlit(" value ");
            lemma_find_from_found(trimmed@, "name "@, 0, name_index as int);
        }
        let value_index = find_chars(&trimmed, &chars_of(" value "));
        let (name, value) = match value_index {
            Some(v) => {
                proof {
                    lemma_find_from_found(trimmed@, " value "@, 0, v as int);
                }
                if v < name_index + 5 {
                    return Err(UciError::ValueBeforeName);
                }
                (slice_chars(&trimmed, name_index + 5, v), Some(slice_chars(&trimmed, v + 7, trimmed.len())))
            },
            None => (slice_chars(&trimmed, name_index + 5, trimmed.len()), None),
        };
        let key = trim_chars(&name);
        if equals_ascii_lowercase(&key, "hash") {
            let v = match value {
                Some(v) => v,
                None => {
                    return Err(UciError::MissingValue);
                },
            };
            let megabytes = match parse_unsigned_exec(&v, u16::MAX as u64) {
                Some(m) => m,
                None => {
                    return Err(UciError::InvalidValue);
                },
            };
            if !(self.hash_option.range.start as u64 <= megabytes && megabytes < self.hash_option.range.end as u64) {
                return Err(UciError::HashOutOfRange);
            }
            self.transposition_capacity = megabytes_to_capacity(megabytes as usize);
            Ok(())
        } else if equals_ascii_lowercase(&key, "threads") {
            let v = match value {
                Some(v) => v,
                None => {
                    return Err(UciError::MissingValue);
                },
            };
            let threads = match parse_unsigned_exec(&v, u16::MAX as u64) {
                Some(t) => t,
                None => {
                    return Err(UciError::InvalidValue);
                },
            };
            if threads != 1 {
                return Err(UciError::UnsupportedThreads);
            }
            Ok(())
        } else if equals_ascii_lowercase(&key, "ponder") {
            let v = match value {
                Some(v) => v,
                None => {
                    return Err(UciError::MissingValue);
                },
            };
            if is_word(&v, "true") {
                self.ponder_info.ponder_allowed = true;
                Ok(())
            } else if is_word(&v, "false") {
                self.ponder_info.ponder_allowed = false;
                Ok(())
            } else {
                Err(UciError::InvalidValue)
            }
        } else if value.is_none() {
            Err(UciError::UnknownOptionWithoutValue)
        } else {
            Err(UciError::UnknownOption)
        }
    }

    /// Reads `position`'s arguments: the start position or a FEN, then the moves to play. A
    /// refused command leaves the position unset. A move with an unknown promotion letter or bad
    /// squares gives an error rather than stopping the program.
    pub fn position(&mut self, args: &str) -> (r: Result<(), UciError>)
        requires
            old(self).wf(),
        ensures
            final(self).wf(),
            final(self).hash_option == old(self).hash_option,
            final(self).transposition_capacity == old(self).transposition_capacity,
            final(self).stopped == old(self).stopped,
            final(self).ponder_info.ponder_allowed == old(self).ponder_info.ponder_allowed,
            match position_from(words(args@), 0, true, Seq::empty()) {
                Ok((startpos, fen, moves)) => r is Ok && final(self).moves@ == moves && (final(self).fen matches Some(f)
                    && f@ == (if startpos {
                    Board::START_POSITION_FEN@
                } else {
                    fen
                })),
                Err(e) => r == Err::<(), UciError>(e) && final(self).fen is None && final(self).moves@.len() == 0,
            },
    {
        self.moves.clear();
        self.fen = None;
        let chars = chars_of(args);
        let ws = split_words(&chars);
        let ghost wv = ws@.map_values(|w: Vec<char>| w@);
        proof {
            assert(wv =~= words(args@));
        }
        let mut startpos = true;
        let mut building_fen = String::new();
        let mut moves: Vec<(Square, Square, Flag)> = Vec::new();
        let mut i: usize = 0;
        let mut reading_moves = false;
        while i < ws.len()
            invariant
                i <= ws@.len(),
                wv == ws@.map_values(|w: Vec<char>| w@),
                wv == words(args@),
                !reading_moves ==> moves@.len() == 0,
                !reading_moves ==> position_from(wv, i as nat, startpos, building_fen@) == position_from(wv, 0, true, Seq::empty()),
                reading_moves ==> (moves_from(wv, i as nat) matches Ok(rest) ==> position_from(wv, 0, true, Seq::empty()) == Ok::<
                    (bool, Seq<char>, Seq<(Square, Square, Flag)>),
                    UciError,
                >((startpos, building_fen@, moves@ + rest))),
                reading_moves ==> (moves_from(wv, i as nat) matches Err(e) ==> position_from(wv, 0, true, Seq::empty()) == Err::<
                    (bool, Seq<char>, Seq<(Square, Square, Flag)>),
                    UciError,
                >(e)),
                self.fen is None,
                self.moves@.len() == 0,
                self.wf(),
                self.hash_option == old(self).hash_option,
                self.transposition_capacity == old(self).transposition_capacity,
                self.stopped == old(self).stopped,
                self.ponder_info.ponder_allowed == old(self).ponder_info.ponder_allowed,
            decreases ws@.len() - i,
        {
            let label = &ws[i];
            proof {
                assert(wv[i as int] == label@);
            }
            if reading_moves {
                match read_uci_move(label) {
                    Ok(m) => {
                        proof {
                            assert(moves@.push(m) + (match moves_from(wv, (i + 1) as nat) {
                                Ok(rest) => rest,
                                Err(_) => Seq::empty(),
                            }) =~= moves@ + (seq![m] + (match moves_from(wv, (i + 1) as nat) {
                                Ok(rest) => rest,
                                Err(_) => Seq::empty(),
                            })));
                        }
                        moves.push(m);
                    },
                    Err(e) => {
                        return Err(e);
                    },
                }
            } else if is_word(label, "startpos") {
                startpos = true;
            } else if is_word(label, "fen") {
                startpos = false;
            } else if is_word(label, "moves") {
                reading_moves = true;
                proof {
                    assert(moves@ + Seq::<(Square, Square, Flag)>::empty() =~= moves@);
                    assert forall|rest: Seq<(Square, Square, Flag)>| moves@ + rest =~= rest by {}
                }
            } else if !startpos {
                push_chars_of(&mut building_fen, label);
                string_push_space(&mut building_fen);
            }
            i = i + 1;
        }
        if !reading_moves {
            proof {
                assert(position_from(wv, i as nat, startpos, building_fen@) == Ok::<
                    (bool, Seq<char>, Seq<(Square, Square, Flag)>),
                    UciError,
                >((startpos, building_fen@, Seq::empty())));
                assert(moves@ =~= Seq::<(Square, Square, Flag)>::empty());
            }
        } else {
            proof {
                assert(moves@ + Seq::<(Square, Square, Flag)>::empty() =~= moves@);
            }
        }
        self.fen = Some(
            if startpos {
                let mut start = String::new();
                push_str(&mut start, Board::START_POSITION_FEN);
                proof {
                    assert(start@ =~= Board::START_POSITION_FEN@);
                }
                start
            } else {
                building_fen
            },
        );
        self.moves = moves;
        Ok(())
    }

    /// Tells the search to stop as soon as possible.
    pub fn stop(&self) {
        self.stopped.store(true, Ordering::SeqCst);
    }

    /// Tells the search that the pondered move was played.
    pub fn ponderhit(&self) {
        self.ponder_info.is_pondering.store(false, Ordering::SeqCst);
    }
}

/// Appends the characters `w`.
fn push_chars_of(s: &mut String, w: &Vec<char>)
    ensures
        final(s)@ == old(s)@ + w@,
{
    let mut i: usize = 0;
    while i < w.len()
        invariant
            i <= w@.len(),
            s@ == old(s)@ + w@.subrange(0, i as int),
        decreases w@.len() - i,
    {
        crate::text::string_push(s, w[i]);
        proof {
            assert(s@ =~= old(s)@ + w@.subrange(0, i + 1));
        }
        i = i + 1;
    }
    proof {
        assert(w@.subrange(0, i as int) =~= w@);
    }
}

/// Appends a space.
fn string_push_space(s: &mut String)
    ensures
        final(s)@ == old(s)@ + seq![' '],
{
    crate::text::string_push(s, ' ');
    proof {
        assert(old(s)@.push(' ') =~= old(s)@ + seq![' ']);
    }
}

/// What `go` asks to do.
pub enum GoCommand {
    /// Count the move paths of this many plies from the board, its moves played.
    Perft(Board, u16),
    /// Search the board, before its moves, within the limits.
    Search(Board, SearchTime),
}

/// The move that `(from, to, promotion)` stands for on `b`, with the flag its piece gives it, if
/// both squares are on the board, a piece of the side to move stands on `from` and the move can
/// be made.
pub open spec fn uci_move_on(b: Board, mv: (Square, Square, Flag)) -> Option<Move> {
    if mv.0.valid() && mv.1.valid() && b.spec_friendly_piece_at(mv.0.0 as int) is Some {
        let m = Move { from: mv.0, to: mv.1, flag: decoded_flag(b, mv.0, mv.1, mv.2) };
        if make_move_allowed(b, m) {
            Some(m)
        } else {
            None
        }
    } else {
        None
    }
}

/// Whether `boards` are the boards met while playing `moves`: one more than the moves, each the
/// one before it with its move made.
pub open spec fn plays(boards: Seq<Board>, moves: Seq<(Square, Square, Flag)>) -> bool {
    &&& boards.len() == moves.len() + 1
    &&& forall|i: int|
        0 <= i < moves.len() ==> match uci_move_on(#[trigger] boards[i], moves[i]) {
            Some(m) => is_made(boards[i], m, boards[i + 1]),
            None => false,
        }
}

/// The boards met while playing moves are fixed by the first one.
pub proof fn lemma_plays_unique(a: Seq<Board>, b: Seq<Board>, moves: Seq<(Square, Square, Flag)>)
    requires
        plays(a, moves),
        plays(b, moves),
        a[0] == b[0],
    ensures
        a == b,
    decreases moves.len(),
{
    if moves.len() > 0 {
        let n = moves.len() - 1;
        let front = moves.take(n);
        assert(plays(a.take(n + 1), front)) by {
            assert forall|i: int| 0 <= i < front.len() implies match uci_move_on(#[trigger] a.take(n + 1)[i], front[i]) {
                Some(m) => is_made(a.take(n + 1)[i], m, a.take(n + 1)[i + 1]),
                None => false,
            } by {
                assert(a[i] == a.take(n + 1)[i]);
                assert(uci_move_on(a[i], moves[i]) is Some);
            }
        }
        assert(plays(b.take(n + 1), front)) by {
            assert forall|i: int| 0 <= i < front.len() implies match uci_move_on(#[trigger] b.take(n + 1)[i], front[i]) {
                Some(m) => is_made(b.take(n + 1)[i], m, b.take(n + 1)[i + 1]),
                None => false,
            } by {
                assert(b[i] == b.take(n + 1)[i]);
                assert(uci_move_on(b[i], moves[i]) is Some);
            }
        }
        lemma_plays_unique(a.take(n + 1), b.take(n + 1), front);
        assert(a[n] == a.take(n + 1)[n]);
        assert(b[n] == b.take(n + 1)[n]);
        assert(uci_move_on(a[n], moves[n]) is Some);
        let m = uci_move_on(a[n], moves[n])->0;
        lemma_made_unique(a[n], m, a[n + 1], b[n + 1]);
        assert(a =~= b) by {
            assert forall|i: int| 0 <= i < a.len() implies a[i] == b[i] by {
                if i <= n {
                    assert(a[i] == a.take(n + 1)[i]);
                    assert(b[i] == b.take(n + 1)[i]);
                }
            }
        }
    } else {
        assert(a =~= b);
    }
}

/// Playing one more move: the boards met so far, then the board that move leaves.
pub proof fn lemma_plays_push(
    boards: Seq<Board>,
    moves: Seq<(Square, Square, Flag)>,
    i: int,
    m: Move,
    after: Board,
)
    requires
        0 <= i < moves.len(),
        boards.len() == i + 1,
        plays(boards, moves.take(i)),
        uci_move_on(boards.last(), moves[i]) == Some(m),
        is_made(boards.last(), m, after),
    ensures
        plays(boards.push(after), moves.take(i + 1)),
        boards.push(after).drop_last() == boards,
        keys_of(boards.push(after).drop_last()) == keys_of(boards.drop_last()).push(
            boards.last().game_state.zobrist_key,
        ),
{
    let next = boards.push(after);
    assert forall|k: int| 0 <= k < i + 1 implies match uci_move_on(#[trigger] next[k], moves.take(i + 1)[k]) {
        Some(m) => is_made(next[k], m, next[k + 1]),
        None => false,
    } by {
        assert(moves.take(i + 1)[k] == moves[k]);
        if k < i {
            assert(moves.take(i)[k] == moves[k]);
            assert(next[k] == boards[k]);
            assert(next[k + 1] == boards[k + 1]);
            assert(uci_move_on(boards[k], moves.take(i)[k]) is Some);
        }
    }
    assert(next.drop_last() =~= boards);
    assert(boards =~= boards.drop_last().push(boards.last()));
    assert(keys_of(boards) =~= keys_of(boards.drop_last()).push(boards.last().game_state.zobrist_key));
}

/// Plays moves given as from, to and promotion on `board`, each with the flag its piece gives it;
/// stops at the first move with no friendly piece to move or that cannot be made.
pub fn play_moves(board: &mut Board, moves: &Vec<(Square, Square, Flag)>) -> (r: Result<(), UciError>)
    ensures
        r is Ok ==> exists|boards: Seq<Board>|
            #![trigger plays(boards, moves@)]
            plays(boards, moves@) && boards[0] == *old(board) && boards.last() == *final(board),
        r is Err ==> r == Err::<(), UciError>(UciError::IllegalMove) && exists|boards: Seq<Board>|
            #![trigger plays(boards, moves@.take(boards.len() - 1))]
            boards.len() <= moves@.len() && plays(boards, moves@.take(boards.len() - 1)) && boards[0]
                == *old(board) && uci_move_on(boards.last(), moves@[boards.len() - 1]) is None,
{
    let ghost boards: Seq<Board> = seq![*board];
    let mut i: usize = 0;
    proof {
        assert(plays(boards, moves@.take(0)));
    }
    while i < moves.len()
        invariant
            i <= moves@.len(),
            boards.len() == i + 1,
            plays(boards, moves@.take(i as int)),
            boards[0] == *old(board),
            boards.last() == *board,
        decreases moves@.len() - i,
    {
        let (from, to, promotion) = moves[i];
        if !from.within_bounds() || !to.within_bounds() || board.friendly_piece_at(from).is_none() {
            proof {
                assert(uci_move_on(boards.last(), moves@[boards.len() - 1]) is None);
            }
            return Err(UciError::IllegalMove);
        }
        let move_data = decode_move(board, from, to, promotion);
        if !board.can_make_move(&move_data) {
            proof {
                assert(uci_move_on(boards.last(), moves@[boards.len() - 1]) is None);
            }
            return Err(UciError::IllegalMove);
        }
        let ghost before = *board;
        let _ = board.make_move(&move_data);
        proof {
            lemma_plays_push(boards, moves@, i as int, move_data, *board);
            boards = boards.push(*board);
        }
        i = i + 1;
    }
    proof {
        assert(moves@.take(i as int) =~= moves@);
    }
    Ok(())
}

impl UCIProcessor {
    /// The position of the last `position` command, before its moves.
    pub fn start_board(&self) -> (r: Result<Board, UciError>)
        ensures
            self.fen is None ==> r == Err::<Board, UciError>(UciError::NoPosition),
            self.fen matches Some(f) ==> match spec_from_fen(f@) {
                Ok(fields) => r matches Ok(b) && board_of_fields(b, fields),
                Err(e) => r == Err::<Board, UciError>(UciError::InvalidFen(e)),
            },
    {
        match &self.fen {
            None => Err(UciError::NoPosition),
            Some(fen) => match Board::from_fen(fen.as_str()) {
                Ok(board) => Ok(board),
                Err(e) => Err(UciError::InvalidFen(e)),
            },
        }
    }

    /// Works out what `go` asks for: a move path count on the position with its moves played,
    /// or a search of the position (its moves are played by the search), with the stop flag
    /// cleared and the pondering flag set if pondering is allowed and asked for.
    pub fn go(&self, parameters: GoParameters) -> (r: Result<GoCommand, UciError>)
        ensures
            self.fen is None ==> r == Err::<GoCommand, UciError>(UciError::NoPosition),
            self.fen matches Some(f) ==> match spec_from_fen(f@) {
                Err(e) => r == Err::<GoCommand, UciError>(UciError::InvalidFen(e)),
                Ok(fields) => match parameters.search_type {
                    None => r == Err::<GoCommand, UciError>(UciError::NoSearchType),
                    Some(SearchType::Normal(t)) => r matches Ok(GoCommand::Search(b, t2)) && t2 == t
                        && board_of_fields(b, fields),
                    Some(SearchType::Perft(depth)) => match r {
                        Ok(GoCommand::Perft(b, d)) => d == depth && exists|boards: Seq<Board>|
                            #![trigger plays(boards, self.moves@)]
                            plays(boards, self.moves@) && board_of_fields(boards[0], fields) && boards.last() == b,
                        Ok(GoCommand::Search(_, _)) => false,
                        Err(e) => e == UciError::IllegalMove && exists|boards: Seq<Board>|
                            #![trigger plays(boards, self.moves@.take(boards.len() - 1))]
                            boards.len() <= self.moves@.len() && plays(boards, self.moves@.take(boards.len() - 1))
                                && board_of_fields(boards[0], fields) && uci_move_on(
                                boards.last(),
                                self.moves@[boards.len() - 1],
                            ) is None,
                    },
                },
            },
    {
        let mut board = match self.start_board() {
            Ok(board) => board,
            Err(e) => {
                return Err(e);
            },
        };
        match parameters.search_type() {
            Some(SearchType::Perft(depth)) => {
                match play_moves(&mut board, &self.moves) {
                    Ok(()) => Ok(GoCommand::Perft(board, depth)),
                    Err(e) => Err(e),
                }
            },
            Some(SearchType::Normal(search_time)) => {
                self.stopped.store(false, Ordering::SeqCst);
                let pondering = match search_time.pondering() {
                    Some(p) => p,
                    None => false,
                };
                self.ponder_info.is_pondering.store(self.ponder_info.ponder_allowed && pondering, Ordering::SeqCst);
                Ok(GoCommand::Search(board, search_time))
            },
            None => Err(UciError::NoSearchType),
        }
    }
}

/// A score as UCI gives it: whether it is a checkmate, and then its distance (the score less the
/// score of an immediate checkmate, made positive, with the score's sign), else the score.
pub open spec fn uci_score_of(evaluation: int) -> (bool, int) {
    if is_mate_score(evaluation) {
        let distance = if evaluation - IMMEDIATE_CHECKMATE_SCORE >= 0 {
            evaluation - IMMEDIATE_CHECKMATE_SCORE
        } else {
            IMMEDIATE_CHECKMATE_SCORE - evaluation
        };
        let sign = if evaluation > 0 { 1int } else if evaluation < 0 { -1int } else { 0int };
        (true, if sign == 1 { distance } else if sign == -1 { -distance } else { 0 })
    } else {
        (false, evaluation)
    }
}

/// The score to report: a checkmate distance or centipawns.
pub fn uci_score(evaluation: EvalNumber) -> (r: (bool, i64))
    requires
        evaluation > i32::MIN,
    ensures
        r.0 == uci_score_of(evaluation as int).0,
        r.1 == uci_score_of(evaluation as int).1,
{
    if Search::score_is_checkmate(evaluation) {
        let difference = evaluation as i64 - IMMEDIATE_CHECKMATE_SCORE as i64;
        let distance = if difference >= 0 { difference } else { -difference };
        let value = if evaluation > 0 { distance } else if evaluation < 0 { -distance } else { 0 };
        (true, value)
    } else {
        (false, evaluation as i64)
    }
}

/// The plies of a checkmate in `moves` moves.
pub open spec fn mate_plies(moves: u8) -> u8 {
    if moves == 0 {
        0
    } else {
        (2 * moves - 1) as u8
    }
}

/// The time limit of a search: none when infinite, else the fixed time, else what the clock and
/// increment of the side to move give, else none.
pub open spec fn time_limits(search_time: SearchTime, white_to_move: bool) -> Option<(u64, u64)> {
    let clock = if white_to_move { search_time.white_time } else { search_time.black_time };
    let increment = if white_to_move { search_time.white_increment } else { search_time.black_increment };
    if search_time.infinite {
        None
    } else {
        match search_time.fixed_time {
            Some(t) => Some((t, t)),
            None => match clock {
                Some(c) => {
                    let inc: u64 = match increment {
                        Some(i) => i,
                        None => 0,
                    };
                    let hard = c / 4;
                    Some((hard, if c / 30 + inc < hard { (c / 30 + inc) as u64 } else { hard }))
                },
                None => None,
            },
        }
    }
}

/// The search limits with the two sides' clocks and increments swapped.
pub open spec fn colours_swapped(t: SearchTime) -> SearchTime {
    SearchTime {
        white_time: t.black_time,
        black_time: t.white_time,
        white_increment: t.black_increment,
        black_increment: t.white_increment,
        ..t
    }
}

/// How long a search may take: only the side to move's clock and increment count, so swapping
/// the sides' clocks along with the side to move changes nothing, and the other side's clock
/// never matters; a fixed time is both limits; with a clock, the hard limit is a quarter of it and
/// the soft limit is at most the hard one and at least a thirtieth of the clock when that fits;
/// an infinite search or one without a clock or fixed time has no limit.
pub proof fn lemma_time_limits(t: SearchTime, u: SearchTime, white_to_move: bool)
    ensures
        time_limits(colours_swapped(t), !white_to_move) == time_limits(t, white_to_move),
        (white_to_move ==> u.white_time == t.white_time && u.white_increment == t.white_increment) && (!white_to_move
            ==> u.black_time == t.black_time && u.black_increment == t.black_increment) && u.infinite == t.infinite
            && u.fixed_time == t.fixed_time ==> time_limits(u, white_to_move) == time_limits(t, white_to_move),
        t.infinite ==> time_limits(t, white_to_move) is None,
        !t.infinite && t.fixed_time is Some ==> time_limits(t, white_to_move) == Some((t.fixed_time->0, t.fixed_time->0)),
        ({
            let clock = if white_to_move { t.white_time } else { t.black_time };
            let c = clock->0;
            let r = time_limits(t, white_to_move)->0;
            !t.infinite && t.fixed_time is None && clock is Some ==> time_limits(t, white_to_move) is Some && r.0 == c / 4
                && r.1 <= r.0 && (c / 30 <= r.0 ==> c / 30 <= r.1)
        }),
        ({
            let clock = if white_to_move { t.white_time } else { t.black_time };
            !t.infinite && t.fixed_time is None && clock is None ==> time_limits(t, white_to_move) is None
        }),
{
}

/// The time manager of a search within `search_time` for the side to move: its depth, node
/// count (as both limits) and time limits, and checkmate distance in plies.
pub fn time_manager_for(
    search_time: &SearchTime,
    white_to_move: bool,
    stopped: Arc<AtomicBool>,
    pondering: Arc<AtomicBool>,
    timer: &Time,
) -> (r: TimeManager)
    requires
        search_time.mate_in_moves matches Some(m) ==> m < 128,
    ensures
        r.depth_limit == search_time.depth,
        search_time.nodes is None ==> r.node_limit is None,
        search_time.nodes matches Some(n) ==> r.node_limit matches Some(l) && l.hard_limit == n && l.soft_limit == n,
        search_time.mate_in_moves is None ==> r.mated_in is None,
        search_time.mate_in_moves matches Some(m) ==> r.mated_in == Some(mate_plies(m)),
        time_limits(*search_time, white_to_move) is None ==> r.real_time is None,
        time_limits(*search_time, white_to_move) matches Some((hard, soft)) ==> r.real_time matches Some(rt)
            && rt.hard_time_limit == hard && rt.soft_time_limit == soft,
{
    let node_limit = match search_time.nodes {
        Some(n) => Some(NodeLimit::new(n, n)),
        None => None,
    };
    let mated_in = match search_time.mate_in_moves {
        Some(m) => Some(if m == 0 { 0 } else { 2 * m - 1 }),
        None => None,
    };
    let clock = if white_to_move { search_time.white_time } else { search_time.black_time };
    let increment = if white_to_move { search_time.white_increment } else { search_time.black_increment };
    let real_time = if search_time.infinite {
        None
    } else if let Some(t) = search_time.fixed_time {
        Some(RealTime::new(timer, t, t))
    } else if let Some(c) = clock {
        let inc: u64 = match increment {
            Some(i) => i,
            None => 0,
        };
        let (hard, soft) = calculate_time(c, inc);
        Some(RealTime::new(timer, hard, soft))
    } else {
        None
    };
    TimeManager::new(search_time.depth, node_limit, real_time, stopped, pondering, mated_in)
}

/// The keys of the boards, in order.
pub open spec fn keys_of(boards: Seq<Board>) -> Seq<Zobrist> {
    boards.map_values(|b: Board| b.game_state.zobrist_key)
}

/// Plays moves given as from, to and promotion on the search's position, each added to the
/// repetition table; stops at the first move with no friendly piece to move or that cannot be
/// made.
pub fn play_moves_in_search(search: &mut Search, moves: &Vec<(Square, Square, Flag)>) -> (r: Result<(), UciError>)
    requires
        old(search).wf(),
    ensures
        final(search).wf(),
        final(search).transposition_table@.len() == old(search).transposition_table@.len(),
        r is Ok ==> exists|boards: Seq<Board>|
            #![trigger plays(boards, moves@)]
            plays(boards, moves@) && boards[0] == old(search).board && boards.last() == final(search).board
                && final(search).repetition_table.positions@ == old(search).repetition_table.positions@
                + keys_of(boards.drop_last()),
        r is Err ==> r == Err::<(), UciError>(UciError::IllegalMove) && exists|boards: Seq<Board>|
            #![trigger plays(boards, moves@.take(boards.len() - 1))]
            boards.len() <= moves@.len() && plays(boards, moves@.take(boards.len() - 1)) && boards[0]
                == old(search).board && uci_move_on(boards.last(), moves@[boards.len() - 1]) is None
                && final(search).board == boards.last()
                && final(search).repetition_table.positions@ == old(search).repetition_table.positions@
                + keys_of(boards.drop_last()),
{
    let ghost boards: Seq<Board> = seq![search.board];
    let mut i: usize = 0;
    proof {
        assert(plays(boards, moves@.take(0)));
        assert(old(search).repetition_table.positions@ + keys_of(boards.drop_last())
            =~= old(search).repetition_table.positions@);
    }
    while i < moves.len()
        invariant
            i <= moves@.len(),
            search.wf(),
            search.transposition_table@.len() == old(search).transposition_table@.len(),
            boards.len() == i + 1,
            plays(boards, moves@.take(i as int)),
            boards[0] == old(search).board,
            boards.last() == search.board,
            search.repetition_table.positions@ == old(search).repetition_table.positions@ + keys_of(
                boards.drop_last(),
            ),
        decreases moves@.len() - i,
    {
        let (from, to, promotion) = moves[i];
        if !from.within_bounds() || !to.within_bounds() || search.board.friendly_piece_at(from).is_none() {
            proof {
                assert(uci_move_on(boards.last(), moves@[boards.len() - 1]) is None);
            }
            return Err(UciError::IllegalMove);
        }
        let move_data = decode_move(&search.board, from, to, promotion);
        if !search.board.can_make_move(&move_data) {
            proof {
                assert(uci_move_on(boards.last(), moves@[boards.len() - 1]) is None);
            }
            return Err(UciError::IllegalMove);
        }
        let ghost before = search.board;
        let ghost positions_before = search.repetition_table.positions@;
        let _ = search.make_move(&move_data);
        proof {
            assert(uci_move_on(before, moves@[i as int]) == Some(move_data));
            assert(is_made(before, move_data, search.board));
            lemma_plays_push(boards, moves@, i as int, move_data, search.board);
            let next = boards.push(search.board);
            assert(search.repetition_table.positions@ =~= old(search).repetition_table.positions@ + keys_of(
                next.drop_last(),
            ));
            boards = next;
        }
        i = i + 1;
    }
    proof {
        assert(moves@.take(i as int) =~= moves@);
    }
    Ok(())
}

} // verus!
