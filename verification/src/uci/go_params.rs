//! The parameters of the UCI `go` command.
use vstd::prelude::*;
use crate::text::{chars_of, split_words, words, parse_unsigned, parse_unsigned_exec, decimal};
use crate::board::fen_round_trip::lemma_decimal_reads_back;

verus! {

/// How long and how deep to search.
#[derive(Clone, Copy)]
pub struct SearchTime {
    /// Whether to search in pondering mode.
    pub pondering: Option<bool>,
    /// Stop on finding a checkmate in this many moves.
    pub mate_in_moves: Option<u8>,
    /// Search until stopped.
    pub infinite: bool,
    /// Milliseconds to search.
    pub fixed_time: Option<u64>,
    /// Limit of nodes to search.
    pub nodes: Option<u64>,
    /// Plies to search.
    pub depth: Option<u8>,
    /// White's clock in milliseconds.
    pub white_time: Option<u64>,
    /// Black's clock in milliseconds.
    pub black_time: Option<u64>,
    /// White's increment in milliseconds, never zero.
    pub white_increment: Option<u64>,
    /// Black's increment in milliseconds, never zero.
    pub black_increment: Option<u64>,
    /// Moves until the next time control, never zero.
    pub moves_to_go: Option<u16>,
}

/// No limit given.
pub open spec fn no_limits() -> SearchTime {
    SearchTime {
        pondering: None,
        mate_in_moves: None,
        infinite: false,
        fixed_time: None,
        nodes: None,
        depth: None,
        white_time: None,
        black_time: None,
        white_increment: None,
        black_increment: None,
        moves_to_go: None,
    }
}

impl Default for SearchTime {
    /// No limit given.
    fn default() -> (r: Self)
        ensures
            r == no_limits(),
    {
        SearchTime {
            pondering: None,
            mate_in_moves: None,
            infinite: false,
            fixed_time: None,
            nodes: None,
            depth: None,
            white_time: None,
            black_time: None,
            white_increment: None,
            black_increment: None,
            moves_to_go: None,
        }
    }
}

impl SearchTime {
    /// Milliseconds to search.
    pub fn fixed_time(&self) -> (r: Option<u64>)
        ensures
            r == self.fixed_time,
    {
        self.fixed_time
    }

    /// Stop on finding a checkmate in this many moves.
    pub fn mate_in_moves(&self) -> (r: Option<u8>)
        ensures
            r == self.mate_in_moves,
    {
        self.mate_in_moves
    }

    /// Plies to search.
    pub fn depth(&self) -> (r: Option<u8>)
        ensures
            r == self.depth,
    {
        self.depth
    }

    /// Limit of nodes to search.
    pub fn nodes(&self) -> (r: Option<u64>)
        ensures
            r == self.nodes,
    {
        self.nodes
    }

    /// Whether to search in pondering mode.
    pub fn pondering(&self) -> (r: Option<bool>)
        ensures
            r == self.pondering,
    {
        self.pondering
    }

    /// Search until stopped.
    pub fn infinite(&self) -> (r: bool)
        ensures
            r == self.infinite,
    {
        self.infinite
    }

    /// White's clock in milliseconds.
    pub fn white_time(&self) -> (r: Option<u64>)
        ensures
            r == self.white_time,
    {
        self.white_time
    }

    /// Black's clock in milliseconds.
    pub fn black_time(&self) -> (r: Option<u64>)
        ensures
            r == self.black_time,
    {
        self.black_time
    }

    /// White's increment in milliseconds.
    pub fn white_increment(&self) -> (r: Option<u64>)
        ensures
            r == self.white_increment,
    {
        self.white_increment
    }

    /// Black's increment in milliseconds.
    pub fn black_increment(&self) -> (r: Option<u64>)
        ensures
            r == self.black_increment,
    {
        self.black_increment
    }
}

/// What `go` asks for.
#[derive(Clone, Copy)]
pub enum SearchType {
    /// A search within the limits.
    Normal(SearchTime),
    /// Counting the move paths of this many plies.
    Perft(u16),
}

/// Why `go` parameters were refused.
#[derive(Clone, Copy, PartialEq, Eq, Structural, Debug)]
pub enum GoParseError {
    /// A parameter lacks its value.
    MissingValue,
    /// A value is not a number in range.
    InvalidNumber,
    /// A parameter is given twice.
    Repeated,
    /// A search limit follows `perft`, or `perft` follows `perft`.
    SearchTypeDetermined,
    /// `mate` asks for 128 moves or more.
    MateTooFar,
    /// `searchmoves` is not supported.
    SearchMoves,
    /// An unknown parameter.
    UnknownParameter,
}

/// The value of the word after position `i`, as a number no larger than `max`.
pub open spec fn number_after(ws: Seq<Seq<char>>, i: int, max: nat) -> Result<nat, GoParseError> {
    if i >= ws.len() - 1 {
        Err(GoParseError::MissingValue)
    } else {
        match parse_unsigned(ws[i + 1], max) {
            Some(v) => Ok(v),
            None => Err(GoParseError::InvalidNumber),
        }
    }
}

/// An increment after position `i`: a missing word is refused, a word that is no number or is
/// zero gives no increment.
pub open spec fn increment_after(ws: Seq<Seq<char>>, i: int) -> Result<Option<u64>, GoParseError> {
    if i >= ws.len() - 1 {
        Err(GoParseError::MissingValue)
    } else {
        match parse_unsigned(ws[i + 1], u64::MAX as nat) {
            Some(v) => if v == 0 {
                Ok(None)
            } else {
                Ok(Some(v as u64))
            },
            None => Ok(None),
        }
    }
}

/// Whether `label` is one of the search limits.
pub open spec fn is_limit_label(label: Seq<char>) -> bool {
    ||| label == "wtime"@
    ||| label == "btime"@
    ||| label == "winc"@
    ||| label == "binc"@
    ||| label == "ponder"@
    ||| label == "movetime"@
    ||| label == "depth"@
    ||| label == "nodes"@
    ||| label == "infinite"@
    ||| label == "movestogo"@
    ||| label == "mate"@
}

/// The search limits after the limit at position `i` is read into `t`, and whether it had a value.
pub open spec fn limit_step(ws: Seq<Seq<char>>, i: int, t: SearchTime) -> Result<(SearchTime, bool), GoParseError> {
    let label = ws[i];
    if label == "wtime"@ {
        if t.white_time is Some {
            Err(GoParseError::Repeated)
        } else {
            match number_after(ws, i, u64::MAX as nat) {
                Ok(v) => Ok((SearchTime { white_time: Some(v as u64), ..t }, true)),
                Err(e) => Err(e),
            }
        }
    } else if label == "btime"@ {
        if t.black_time is Some {
            Err(GoParseError::Repeated)
        } else {
            match number_after(ws, i, u64::MAX as nat) {
                Ok(v) => Ok((SearchTime { black_time: Some(v as u64), ..t }, true)),
                Err(e) => Err(e),
            }
        }
    } else if label == "winc"@ {
        if t.white_increment is Some {
            Err(GoParseError::Repeated)
        } else {
            match increment_after(ws, i) {
                Ok(v) => Ok((SearchTime { white_increment: v, ..t }, true)),
                Err(e) => Err(e),
            }
        }
    } else if label == "binc"@ {
        if t.black_increment is Some {
            Err(GoParseError::Repeated)
        } else {
            match increment_after(ws, i) {
                Ok(v) => Ok((SearchTime { black_increment: v, ..t }, true)),
                Err(e) => Err(e),
            }
        }
    } else if label == "ponder"@ {
        if t.pondering is Some {
            Err(GoParseError::Repeated)
        } else {
            Ok((SearchTime { pondering: Some(true), ..t }, false))
        }
    } else if label == "movetime"@ {
        if t.fixed_time is Some {
            Err(GoParseError::Repeated)
        } else {
            match number_after(ws, i, u64::MAX as nat) {
                Ok(v) => Ok((SearchTime { fixed_time: Some(v as u64), ..t }, true)),
                Err(e) => Err(e),
            }
        }
    } else if label == "depth"@ {
        if t.depth is Some {
            Err(GoParseError::Repeated)
        } else {
            match number_after(ws, i, u8::MAX as nat) {
                Ok(v) => Ok((SearchTime { depth: Some(v as u8), ..t }, true)),
                Err(e) => Err(e),
            }
        }
    } else if label == "nodes"@ {
        if t.nodes is Some {
            Err(GoParseError::Repeated)
        } else {
            match number_after(ws, i, u64::MAX as nat) {
                Ok(v) => Ok((SearchTime { nodes: Some(v as u64), ..t }, true)),
                Err(e) => Err(e),
            }
        }
    } else if label == "infinite"@ {
        if t.infinite {
            Err(GoParseError::Repeated)
        } else {
            Ok((SearchTime { infinite: true, ..t }, false))
        }
    } else if label == "movestogo"@ {
        if t.moves_to_go is Some {
            Err(GoParseError::Repeated)
        } else {
            match number_after(ws, i, u16::MAX as nat) {
                Ok(v) => if v == 0 {
                    Err(GoParseError::InvalidNumber)
                } else {
                    Ok((SearchTime { moves_to_go: Some(v as u16), ..t }, true))
                },
                Err(e) => Err(e),
            }
        }
    } else {
        if t.mate_in_moves is Some {
            Err(GoParseError::Repeated)
        } else {
            match number_after(ws, i, u8::MAX as nat) {
                Ok(v) => if v >= 128 {
                    Err(GoParseError::MateTooFar)
                } else {
                    Ok((SearchTime { mate_in_moves: Some(v as u8), ..t }, true))
                },
                Err(e) => Err(e),
            }
        }
    }
}

/// What the parameter at position `i` makes of the search type, and whether it had a value.
pub open spec fn go_step(ws: Seq<Seq<char>>, i: int, st: Option<SearchType>) -> Result<(Option<SearchType>, bool), GoParseError> {
    let label = ws[i];
    if is_limit_label(label) {
        let base = match st {
            None => Ok(no_limits()),
            Some(SearchType::Normal(t)) => Ok(t),
            Some(SearchType::Perft(_)) => Err(GoParseError::SearchTypeDetermined),
        };
        match base {
            Err(e) => Err(e),
            Ok(t) => match limit_step(ws, i, t) {
                Err(e) => Err(e),
                Ok((t2, extra)) => Ok((Some(SearchType::Normal(t2)), extra)),
            },
        }
    } else if label == "perft"@ {
        if st matches Some(SearchType::Perft(_)) {
            Err(GoParseError::SearchTypeDetermined)
        } else {
            match number_after(ws, i, u16::MAX as nat) {
                Ok(v) => Ok((Some(SearchType::Perft(v as u16)), true)),
                Err(e) => Err(e),
            }
        }
    } else if label == "searchmoves"@ {
        Err(GoParseError::SearchMoves)
    } else {
        Err(GoParseError::UnknownParameter)
    }
}

/// The search type after reading the parameters from position `i` on, starting from `st`.
pub open spec fn parse_go_from(ws: Seq<Seq<char>>, i: nat, st: Option<SearchType>) -> Result<Option<SearchType>, GoParseError>
    decreases ws.len() - i,
{
    if i >= ws.len() {
        Ok(st)
    } else {
        match go_step(ws, i as int, st) {
            Err(e) => Err(e),
            Ok((st2, extra)) => parse_go_from(ws, i + 1 + if extra { 1nat } else { 0nat }, st2),
        }
    }
}

/// `wtime` with a number.
proof fn lemma_go_label_wtime(n: nat)
    requires
        n <= u64::MAX,
    ensures
        parse_go_from(seq!["wtime"@, decimal(n)], 0, None) == Ok::<Option<SearchType>, GoParseError>(Some(SearchType::Normal(SearchTime { white_time: Some(n as u64), ..no_limits() }))),
{
    reveal_strlit("wtime");
    reveal_strlit("btime");
    reveal_strlit("winc");
    reveal_strlit("binc");
    reveal_strlit("ponder");
    reveal_strlit("movetime");
    reveal_strlit("depth");
    reveal_strlit("nodes");
    reveal_strlit("infinite");
    reveal_strlit("movestogo");
    reveal_strlit("mate");
    reveal_strlit("perft");
    reveal_strlit("searchmoves");
    assert("wtime"@ != "btime"@) by { assert("wtime"@[0] != "btime"@[0]); }
    assert("wtime"@ != "winc"@) by { assert("wtime"@.len() != "winc"@.len()); }
    assert("wtime"@ != "binc"@) by { assert("wtime"@.len() != "binc"@.len()); }
    assert("wtime"@ != "ponder"@) by { assert("wtime"@.len() != "ponder"@.len()); }
    assert("wtime"@ != "movetime"@) by { assert("wtime"@.len() != "movetime"@.len()); }
    assert("wtime"@ != "depth"@) by { assert("wtime"@[0] != "depth"@[0]); }
    assert("wtime"@ != "nodes"@) by { assert("wtime"@[0] != "nodes"@[0]); }
    assert("wtime"@ != "infinite"@) by { assert("wtime"@.len() != "infinite"@.len()); }
    assert("wtime"@ != "movestogo"@) by { assert("wtime"@.len() != "movestogo"@.len()); }
    assert("wtime"@ != "mate"@) by { assert("wtime"@.len() != "mate"@.len()); }
    assert("wtime"@ != "perft"@) by { assert("wtime"@[0] != "perft"@[0]); }
    assert("wtime"@ != "searchmoves"@) by { assert("wtime"@.len() != "searchmoves"@.len()); }
    lemma_decimal_reads_back(n, u64::MAX as nat);
    lemma_decimal_reads_back(n, u64::MAX as nat);
    let ws = seq!["wtime"@, decimal(n)];
    lemma_parse_go_two(ws, Some(SearchType::Normal(SearchTime { white_time: Some(n as u64), ..no_limits() })));
}

/// `btime` with a number.
proof fn lemma_go_label_btime(n: nat)
    requires
        n <= u64::MAX,
    ensures
        parse_go_from(seq!["btime"@, decimal(n)], 0, None) == Ok::<Option<SearchType>, GoParseError>(Some(SearchType::Normal(SearchTime { black_time: Some(n as u64), ..no_limits() }))),
{
    reveal_strlit("wtime");
    reveal_strlit("btime");
    reveal_strlit("winc");
    reveal_strlit("binc");
    reveal_strlit("ponder");
    reveal_strlit("movetime");
    reveal_strlit("depth");
    reveal_strlit("nodes");
    reveal_strlit("infinite");
    reveal_strlit("movestogo");
    reveal_strlit("mate");
    reveal_strlit("perft");
    reveal_strlit("searchmoves");
    assert("btime"@ != "wtime"@) by { assert("btime"@[0] != "wtime"@[0]); }
    assert("btime"@ != "winc"@) by { assert("btime"@.len() != "winc"@.len()); }
    assert("btime"@ != "binc"@) by { assert("btime"@.len() != "binc"@.len()); }
    assert("btime"@ != "ponder"@) by { assert("btime"@.len() != "ponder"@.len()); }
    assert("btime"@ != "movetime"@) by { assert("btime"@.len() != "movetime"@.len()); }
    assert("btime"@ != "depth"@) by { assert("btime"@[0] != "depth"@[0]); }
    assert("btime"@ != "nodes"@) by { assert("btime"@[0] != "nodes"@[0]); }
    assert("btime"@ != "infinite"@) by { assert("btime"@.len() != "infinite"@.len()); }
    assert("btime"@ != "movestogo"@) by { assert("btime"@.len() != "movestogo"@.len()); }
    assert("btime"@ != "mate"@) by { assert("btime"@.len() != "mate"@.len()); }
    assert("btime"@ != "perft"@) by { assert("btime"@[0] != "perft"@[0]); }
    assert("btime"@ != "searchmoves"@) by { assert("btime"@.len() != "searchmoves"@.len()); }
    lemma_decimal_reads_back(n, u64::MAX as nat);
    lemma_decimal_reads_back(n, u64::MAX as nat);
    let ws = seq!["btime"@, decimal(n)];
    lemma_parse_go_two(ws, Some(SearchType::Normal(SearchTime { black_time: Some(n as u64), ..no_limits() })));
}

/// `winc` with a number.
proof fn lemma_go_label_winc(n: nat)
    requires
        0 < n <= u64::MAX,
    ensures
        parse_go_from(seq!["winc"@, decimal(n)], 0, None) == Ok::<Option<SearchType>, GoParseError>(Some(SearchType::Normal(SearchTime { white_increment: Some(n as u64), ..no_limits() }))),
{
    reveal_strlit("wtime");
    reveal_strlit("btime");
    reveal_strlit("winc");
    reveal_strlit("binc");
    reveal_strlit("ponder");
    reveal_strlit("movetime");
    reveal_strlit("depth");
    reveal_strlit("nodes");
    reveal_strlit("infinite");
    reveal_strlit("movestogo");
    reveal_strlit("mate");
    reveal_strlit("perft");
    reveal_strlit("searchmoves");
    assert("winc"@ != "wtime"@) by { assert("winc"@.len() != "wtime"@.len()); }
    assert("winc"@ != "btime"@) by { assert("winc"@.len() != "btime"@.len()); }
    assert("winc"@ != "binc"@) by { assert("winc"@[0] != "binc"@[0]); }
    assert("winc"@ != "ponder"@) by { assert("winc"@.len() != "ponder"@.len()); }
    assert("winc"@ != "movetime"@) by { assert("winc"@.len() != "movetime"@.len()); }
    assert("winc"@ != "depth"@) by { assert("winc"@.len() != "depth"@.len()); }
    assert("winc"@ != "nodes"@) by { assert("winc"@.len() != "nodes"@.len()); }
    assert("winc"@ != "infinite"@) by { assert("winc"@.len() != "infinite"@.len()); }
    assert("winc"@ != "movestogo"@) by { assert("winc"@.len() != "movestogo"@.len()); }
    assert("winc"@ != "mate"@) by { assert("winc"@[0] != "mate"@[0]); }
    assert("winc"@ != "perft"@) by { assert("winc"@.len() != "perft"@.len()); }
    assert("winc"@ != "searchmoves"@) by { assert("winc"@.len() != "searchmoves"@.len()); }
    lemma_decimal_reads_back(n, u64::MAX as nat);
    lemma_decimal_reads_back(n, u64::MAX as nat);
    let ws = seq!["winc"@, decimal(n)];
    lemma_parse_go_two(ws, Some(SearchType::Normal(SearchTime { white_increment: Some(n as u64), ..no_limits() })));
}

/// `binc` with a number.
proof fn lemma_go_label_binc(n: nat)
    requires
        0 < n <= u64::MAX,
    ensures
        parse_go_from(seq!["binc"@, decimal(n)], 0, None) == Ok::<Option<SearchType>, GoParseError>(Some(SearchType::Normal(SearchTime { black_increment: Some(n as u64), ..no_limits() }))),
{
    reveal_strlit("wtime");
    reveal_strlit("btime");
    reveal_strlit("winc");
    reveal_strlit("binc");
    reveal_strlit("ponder");
    reveal_strlit("movetime");
    reveal_strlit("depth");
    reveal_strlit("nodes");
    reveal_strlit("infinite");
    reveal_strlit("movestogo");
    reveal_strlit("mate");
    reveal_strlit("perft");
    reveal_strlit("searchmoves");
    assert("binc"@ != "wtime"@) by { assert("binc"@.len() != "wtime"@.len()); }
    assert("binc"@ != "btime"@) by { assert("binc"@.len() != "btime"@.len()); }
    assert("binc"@ != "winc"@) by { assert("binc"@[0] != "winc"@[0]); }
    assert("binc"@ != "ponder"@) by { assert("binc"@.len() != "ponder"@.len()); }
    assert("binc"@ != "movetime"@) by { assert("binc"@.len() != "movetime"@.len()); }
    assert("binc"@ != "depth"@) by { assert("binc"@.len() != "depth"@.len()); }
    assert("binc"@ != "nodes"@) by { assert("binc"@.len() != "nodes"@.len()); }
    assert("binc"@ != "infinite"@) by { assert("binc"@.len() != "infinite"@.len()); }
    assert("binc"@ != "movestogo"@) by { assert("binc"@.len() != "movestogo"@.len()); }
    assert("binc"@ != "mate"@) by { assert("binc"@[0] != "mate"@[0]); }
    assert("binc"@ != "perft"@) by { assert("binc"@.len() != "perft"@.len()); }
    assert("binc"@ != "searchmoves"@) by { assert("binc"@.len() != "searchmoves"@.len()); }
    lemma_decimal_reads_back(n, u64::MAX as nat);
    lemma_decimal_reads_back(n, u64::MAX as nat);
    let ws = seq!["binc"@, decimal(n)];
    lemma_parse_go_two(ws, Some(SearchType::Normal(SearchTime { black_increment: Some(n as u64), ..no_limits() })));
}

/// `movetime` with a number.
proof fn lemma_go_label_movetime(n: nat)
    requires
        n <= u64::MAX,
    ensures
        parse_go_from(seq!["movetime"@, decimal(n)], 0, None) == Ok::<Option<SearchType>, GoParseError>(Some(SearchType::Normal(SearchTime { fixed_time: Some(n as u64), ..no_limits() }))),
{
    reveal_strlit("wtime");
    reveal_strlit("btime");
    reveal_strlit("winc");
    reveal_strlit("binc");
    reveal_strlit("ponder");
    reveal_strlit("movetime");
    reveal_strlit("depth");
    reveal_strlit("nodes");
    reveal_strlit("infinite");
    reveal_strlit("movestogo");
    reveal_strlit("mate");
    reveal_strlit("perft");
    reveal_strlit("searchmoves");
    assert("movetime"@ != "wtime"@) by { assert("movetime"@.len() != "wtime"@.len()); }
    assert("movetime"@ != "btime"@) by { assert("movetime"@.len() != "btime"@.len()); }
    assert("movetime"@ != "winc"@) by { assert("movetime"@.len() != "winc"@.len()); }
    assert("movetime"@ != "binc"@) by { assert("movetime"@.len() != "binc"@.len()); }
    assert("movetime"@ != "ponder"@) by { assert("movetime"@.len() != "ponder"@.len()); }
    assert("movetime"@ != "depth"@) by { assert("movetime"@.len() != "depth"@.len()); }
    assert("movetime"@ != "nodes"@) by { assert("movetime"@.len() != "nodes"@.len()); }
    assert("movetime"@ != "infinite"@) by { assert("movetime"@[0] != "infinite"@[0]); }
    assert("movetime"@ != "movestogo"@) by { assert("movetime"@.len() != "movestogo"@.len()); }
    assert("movetime"@ != "mate"@) by { assert("movetime"@.len() != "mate"@.len()); }
    assert("movetime"@ != "perft"@) by { assert("movetime"@.len() != "perft"@.len()); }
    assert("movetime"@ != "searchmoves"@) by { assert("movetime"@.len() != "searchmoves"@.len()); }
    lemma_decimal_reads_back(n, u64::MAX as nat);
    lemma_decimal_reads_back(n, u64::MAX as nat);
    let ws = seq!["movetime"@, decimal(n)];
    lemma_parse_go_two(ws, Some(SearchType::Normal(SearchTime { fixed_time: Some(n as u64), ..no_limits() })));
}

/// `depth` with a number.
proof fn lemma_go_label_depth(n: nat)
    requires
        n <= u8::MAX,
    ensures
        parse_go_from(seq!["depth"@, decimal(n)], 0, None) == Ok::<Option<SearchType>, GoParseError>(Some(SearchType::Normal(SearchTime { depth: Some(n as u8), ..no_limits() }))),
{
    reveal_strlit("wtime");
    reveal_strlit("btime");
    reveal_strlit("winc");
    reveal_strlit("binc");
    reveal_strlit("ponder");
    reveal_strlit("movetime");
    reveal_strlit("depth");
    reveal_strlit("nodes");
    reveal_strlit("infinite");
    reveal_strlit("movestogo");
    reveal_strlit("mate");
    reveal_strlit("perft");
    reveal_strlit("searchmoves");
    assert("depth"@ != "wtime"@) by { assert("depth"@[0] != "wtime"@[0]); }
    assert("depth"@ != "btime"@) by { assert("depth"@[0] != "btime"@[0]); }
    assert("depth"@ != "winc"@) by { assert("depth"@.len() != "winc"@.len()); }
    assert("depth"@ != "binc"@) by { assert("depth"@.len() != "binc"@.len()); }
    assert("depth"@ != "ponder"@) by { assert("depth"@.len() != "ponder"@.len()); }
    assert("depth"@ != "movetime"@) by { assert("depth"@.len() != "movetime"@.len()); }
    assert("depth"@ != "nodes"@) by { assert("depth"@[0] != "nodes"@[0]); }
    assert("depth"@ != "infinite"@) by { assert("depth"@.len() != "infinite"@.len()); }
    assert("depth"@ != "movestogo"@) by { assert("depth"@.len() != "movestogo"@.len()); }
    assert("depth"@ != "mate"@) by { assert("depth"@.len() != "mate"@.len()); }
    assert("depth"@ != "perft"@) by { assert("depth"@[0] != "perft"@[0]); }
    assert("depth"@ != "searchmoves"@) by { assert("depth"@.len() != "searchmoves"@.len()); }
    lemma_decimal_reads_back(n, u8::MAX as nat);
    lemma_decimal_reads_back(n, u64::MAX as nat);
    let ws = seq!["depth"@, decimal(n)];
    lemma_parse_go_two(ws, Some(SearchType::Normal(SearchTime { depth: Some(n as u8), ..no_limits() })));
}

/// `nodes` with a number.
proof fn lemma_go_label_nodes(n: nat)
    requires
        n <= u64::MAX,
    ensures
        parse_go_from(seq!["nodes"@, decimal(n)], 0, None) == Ok::<Option<SearchType>, GoParseError>(Some(SearchType::Normal(SearchTime { nodes: Some(n as u64), ..no_limits() }))),
{
    reveal_strlit("wtime");
    reveal_strlit("btime");
    reveal_strlit("winc");
    reveal_strlit("binc");
    reveal_strlit("ponder");
    reveal_strlit("movetime");
    reveal_strlit("depth");
    reveal_strlit("nodes");
    reveal_strlit("infinite");
    reveal_strlit("movestogo");
    reveal_strlit("mate");
    reveal_strlit("perft");
    reveal_strlit("searchmoves");
    assert("nodes"@ != "wtime"@) by { assert("nodes"@[0] != "wtime"@[0]); }
    assert("nodes"@ != "btime"@) by { assert("nodes"@[0] != "btime"@[0]); }
    assert("nodes"@ != "winc"@) by { assert("nodes"@.len() != "winc"@.len()); }
    assert("nodes"@ != "binc"@) by { assert("nodes"@.len() != "binc"@.len()); }
    assert("nodes"@ != "ponder"@) by { assert("nodes"@.len() != "ponder"@.len()); }
    assert("nodes"@ != "movetime"@) by { assert("nodes"@.len() != "movetime"@.len()); }
    assert("nodes"@ != "depth"@) by { assert("nodes"@[0] != "depth"@[0]); }
    assert("nodes"@ != "infinite"@) by { assert("nodes"@.len() != "infinite"@.len()); }
    assert("nodes"@ != "movestogo"@) by { assert("nodes"@.len() != "movestogo"@.len()); }
    assert("nodes"@ != "mate"@) by { assert("nodes"@.len() != "mate"@.len()); }
    assert("nodes"@ != "perft"@) by { assert("nodes"@[0] != "perft"@[0]); }
    assert("nodes"@ != "searchmoves"@) by { assert("nodes"@.len() != "searchmoves"@.len()); }
    lemma_decimal_reads_back(n, u64::MAX as nat);
    lemma_decimal_reads_back(n, u64::MAX as nat);
    let ws = seq!["nodes"@, decimal(n)];
    lemma_parse_go_two(ws, Some(SearchType::Normal(SearchTime { nodes: Some(n as u64), ..no_limits() })));
}

/// `mate` with a number.
proof fn lemma_go_label_mate(n: nat)
    requires
        n < 128,
    ensures
        parse_go_from(seq!["mate"@, decimal(n)], 0, None) == Ok::<Option<SearchType>, GoParseError>(Some(SearchType::Normal(SearchTime { mate_in_moves: Some(n as u8), ..no_limits() }))),
{
    reveal_strlit("wtime");
    reveal_strlit("btime");
    reveal_strlit("winc");
    reveal_strlit("binc");
    reveal_strlit("ponder");
    reveal_strlit("movetime");
    reveal_strlit("depth");
    reveal_strlit("nodes");
    reveal_strlit("infinite");
    reveal_strlit("movestogo");
    reveal_strlit("mate");
    reveal_strlit("perft");
    reveal_strlit("searchmoves");
    assert("mate"@ != "wtime"@) by { assert("mate"@.len() != "wtime"@.len()); }
    assert("mate"@ != "btime"@) by { assert("mate"@.len() != "btime"@.len()); }
    assert("mate"@ != "winc"@) by { assert("mate"@[0] != "winc"@[0]); }
    assert("mate"@ != "binc"@) by { assert("mate"@[0] != "binc"@[0]); }
    assert("mate"@ != "ponder"@) by { assert("mate"@.len() != "ponder"@.len()); }
    assert("mate"@ != "movetime"@) by { assert("mate"@.len() != "movetime"@.len()); }
    assert("mate"@ != "depth"@) by { assert("mate"@.len() != "depth"@.len()); }
    assert("mate"@ != "nodes"@) by { assert("mate"@.len() != "nodes"@.len()); }
    assert("mate"@ != "infinite"@) by { assert("mate"@.len() != "infinite"@.len()); }
    assert("mate"@ != "movestogo"@) by { assert("mate"@.len() != "movestogo"@.len()); }
    assert("mate"@ != "perft"@) by { assert("mate"@.len() != "perft"@.len()); }
    assert("mate"@ != "searchmoves"@) by { assert("mate"@.len() != "searchmoves"@.len()); }
    lemma_decimal_reads_back(n, u8::MAX as nat);
    lemma_decimal_reads_back(n, u64::MAX as nat);
    let ws = seq!["mate"@, decimal(n)];
    lemma_parse_go_two(ws, Some(SearchType::Normal(SearchTime { mate_in_moves: Some(n as u8), ..no_limits() })));
}

/// `movestogo` with a number.
proof fn lemma_go_label_movestogo(n: nat)
    requires
        0 < n <= u16::MAX,
    ensures
        parse_go_from(seq!["movestogo"@, decimal(n)], 0, None) == Ok::<Option<SearchType>, GoParseError>(Some(SearchType::Normal(SearchTime { moves_to_go: Some(n as u16), ..no_limits() }))),
{
    reveal_strlit("wtime");
    reveal_strlit("btime");
    reveal_strlit("winc");
    reveal_strlit("binc");
    reveal_strlit("ponder");
    reveal_strlit("movetime");
    reveal_strlit("depth");
    reveal_strlit("nodes");
    reveal_strlit("infinite");
    reveal_strlit("movestogo");
    reveal_strlit("mate");
    reveal_strlit("perft");
    reveal_strlit("searchmoves");
    assert("movestogo"@ != "wtime"@) by { assert("movestogo"@.len() != "wtime"@.len()); }
    assert("movestogo"@ != "btime"@) by { assert("movestogo"@.len() != "btime"@.len()); }
    assert("movestogo"@ != "winc"@) by { assert("movestogo"@.len() != "winc"@.len()); }
    assert("movestogo"@ != "binc"@) by { assert("movestogo"@.len() != "binc"@.len()); }
    assert("movestogo"@ != "ponder"@) by { assert("movestogo"@.len() != "ponder"@.len()); }
    assert("movestogo"@ != "movetime"@) by { assert("movestogo"@.len() != "movetime"@.len()); }
    assert("movestogo"@ != "depth"@) by { assert("movestogo"@.len() != "depth"@.len()); }
    assert("movestogo"@ != "nodes"@) by { assert("movestogo"@.len() != "nodes"@.len()); }
    assert("movestogo"@ != "infinite"@) by { assert("movestogo"@.len() != "infinite"@.len()); }
    assert("movestogo"@ != "mate"@) by { assert("movestogo"@.len() != "mate"@.len()); }
    assert("movestogo"@ != "perft"@) by { assert("movestogo"@.len() != "perft"@.len()); }
    assert("movestogo"@ != "searchmoves"@) by { assert("movestogo"@.len() != "searchmoves"@.len()); }
    lemma_decimal_reads_back(n, u16::MAX as nat);
    lemma_decimal_reads_back(n, u64::MAX as nat);
    let ws = seq!["movestogo"@, decimal(n)];
    lemma_parse_go_two(ws, Some(SearchType::Normal(SearchTime { moves_to_go: Some(n as u16), ..no_limits() })));
}

/// `perft` with a number.
proof fn lemma_go_label_perft(n: nat)
    requires
        n <= u16::MAX,
    ensures
        parse_go_from(seq!["perft"@, decimal(n)], 0, None) == Ok::<Option<SearchType>, GoParseError>(Some(SearchType::Perft(n as u16))),
{
    reveal_strlit("wtime");
    reveal_strlit("btime");
    reveal_strlit("winc");
    reveal_strlit("binc");
    reveal_strlit("ponder");
    reveal_strlit("movetime");
    reveal_strlit("depth");
    reveal_strlit("nodes");
    reveal_strlit("infinite");
    reveal_strlit("movestogo");
    reveal_strlit("mate");
    reveal_strlit("perft");
    reveal_strlit("searchmoves");
    assert("perft"@ != "wtime"@) by { assert("perft"@[0] != "wtime"@[0]); }
    assert("perft"@ != "btime"@) by { assert("perft"@[0] != "btime"@[0]); }
    assert("perft"@ != "winc"@) by { assert("perft"@.len() != "winc"@.len()); }
    assert("perft"@ != "binc"@) by { assert("perft"@.len() != "binc"@.len()); }
    assert("perft"@ != "ponder"@) by { assert("perft"@.len() != "ponder"@.len()); }
    assert("perft"@ != "movetime"@) by { assert("perft"@.len() != "movetime"@.len()); }
    assert("perft"@ != "depth"@) by { assert("perft"@[0] != "depth"@[0]); }
    assert("perft"@ != "nodes"@) by { assert("perft"@[0] != "nodes"@[0]); }
    assert("perft"@ != "infinite"@) by { assert("perft"@.len() != "infinite"@.len()); }
    assert("perft"@ != "movestogo"@) by { assert("perft"@.len() != "movestogo"@.len()); }
    assert("perft"@ != "mate"@) by { assert("perft"@.len() != "mate"@.len()); }
    assert("perft"@ != "searchmoves"@) by { assert("perft"@.len() != "searchmoves"@.len()); }
    lemma_decimal_reads_back(n, u16::MAX as nat);
    lemma_decimal_reads_back(n, u64::MAX as nat);
    let ws = seq!["perft"@, decimal(n)];
    lemma_parse_go_two(ws, Some(SearchType::Perft(n as u16)));
}

/// `infinite` alone.
proof fn lemma_go_label_infinite()
    ensures
        parse_go_from(seq!["infinite"@], 0, None) == Ok::<Option<SearchType>, GoParseError>(Some(SearchType::Normal(SearchTime { infinite: true, ..no_limits() }))),
{
    reveal_strlit("wtime");
    reveal_strlit("btime");
    reveal_strlit("winc");
    reveal_strlit("binc");
    reveal_strlit("ponder");
    reveal_strlit("movetime");
    reveal_strlit("depth");
    reveal_strlit("nodes");
    reveal_strlit("infinite");
    reveal_strlit("movestogo");
    reveal_strlit("mate");
    reveal_strlit("perft");
    reveal_strlit("searchmoves");
    assert("infinite"@ != "wtime"@) by { assert("infinite"@.len() != "wtime"@.len()); }
    assert("infinite"@ != "btime"@) by { assert("infinite"@.len() != "btime"@.len()); }
    assert("infinite"@ != "winc"@) by { assert("infinite"@.len() != "winc"@.len()); }
    assert("infinite"@ != "binc"@) by { assert("infinite"@.len() != "binc"@.len()); }
    assert("infinite"@ != "ponder"@) by { assert("infinite"@.len() != "ponder"@.len()); }
    assert("infinite"@ != "movetime"@) by { assert("infinite"@[0] != "movetime"@[0]); }
    assert("infinite"@ != "depth"@) by { assert("infinite"@.len() != "depth"@.len()); }
    assert("infinite"@ != "nodes"@) by { assert("infinite"@.len() != "nodes"@.len()); }
    assert("infinite"@ != "movestogo"@) by { assert("infinite"@.len() != "movestogo"@.len()); }
    assert("infinite"@ != "mate"@) by { assert("infinite"@.len() != "mate"@.len()); }
    assert("infinite"@ != "perft"@) by { assert("infinite"@.len() != "perft"@.len()); }
    assert("infinite"@ != "searchmoves"@) by { assert("infinite"@.len() != "searchmoves"@.len()); }
    let ws = seq!["infinite"@];
    assert(parse_go_from(ws, 1, Some(SearchType::Normal(SearchTime { infinite: true, ..no_limits() }))) == Ok::<Option<SearchType>, GoParseError>(Some(SearchType::Normal(SearchTime { infinite: true, ..no_limits() }))));
}

/// `ponder` alone.
proof fn lemma_go_label_ponder()
    ensures
        parse_go_from(seq!["ponder"@], 0, None) == Ok::<Option<SearchType>, GoParseError>(Some(SearchType::Normal(SearchTime { pondering: Some(true), ..no_limits() }))),
{
    reveal_strlit("wtime");
    reveal_strlit("btime");
    reveal_strlit("winc");
    reveal_strlit("binc");
    reveal_strlit("ponder");
    reveal_strlit("movetime");
    reveal_strlit("depth");
    reveal_strlit("nodes");
    reveal_strlit("infinite");
    reveal_strlit("movestogo");
    reveal_strlit("mate");
    reveal_strlit("perft");
    reveal_strlit("searchmoves");
    assert("ponder"@ != "wtime"@) by { assert("ponder"@.len() != "wtime"@.len()); }
    assert("ponder"@ != "btime"@) by { assert("ponder"@.len() != "btime"@.len()); }
    assert("ponder"@ != "winc"@) by { assert("ponder"@.len() != "winc"@.len()); }
    assert("ponder"@ != "binc"@) by { assert("ponder"@.len() != "binc"@.len()); }
    assert("ponder"@ != "movetime"@) by { assert("ponder"@.len() != "movetime"@.len()); }
    assert("ponder"@ != "depth"@) by { assert("ponder"@.len() != "depth"@.len()); }
    assert("ponder"@ != "nodes"@) by { assert("ponder"@.len() != "nodes"@.len()); }
    assert("ponder"@ != "infinite"@) by { assert("ponder"@.len() != "infinite"@.len()); }
    assert("ponder"@ != "movestogo"@) by { assert("ponder"@.len() != "movestogo"@.len()); }
    assert("ponder"@ != "mate"@) by { assert("ponder"@.len() != "mate"@.len()); }
    assert("ponder"@ != "perft"@) by { assert("ponder"@.len() != "perft"@.len()); }
    assert("ponder"@ != "searchmoves"@) by { assert("ponder"@.len() != "searchmoves"@.len()); }
    let ws = seq!["ponder"@];
    assert(parse_go_from(ws, 1, Some(SearchType::Normal(SearchTime { pondering: Some(true), ..no_limits() }))) == Ok::<Option<SearchType>, GoParseError>(Some(SearchType::Normal(SearchTime { pondering: Some(true), ..no_limits() }))));
}

/// A zero increment is no increment.
proof fn lemma_go_label_winc_zero()
    ensures
        parse_go_from(seq!["winc"@, decimal(0)], 0, None) == Ok::<Option<SearchType>, GoParseError>(Some(SearchType::Normal(no_limits()))),
{
    reveal_strlit("wtime");
    reveal_strlit("btime");
    reveal_strlit("winc");
    reveal_strlit("binc");
    reveal_strlit("ponder");
    reveal_strlit("movetime");
    reveal_strlit("depth");
    reveal_strlit("nodes");
    reveal_strlit("infinite");
    reveal_strlit("movestogo");
    reveal_strlit("mate");
    reveal_strlit("perft");
    reveal_strlit("searchmoves");
    assert("winc"@ != "wtime"@) by { assert("winc"@.len() != "wtime"@.len()); }
    assert("winc"@ != "btime"@) by { assert("winc"@.len() != "btime"@.len()); }
    assert("winc"@ != "binc"@) by { assert("winc"@[0] != "binc"@[0]); }
    assert("winc"@ != "ponder"@) by { assert("winc"@.len() != "ponder"@.len()); }
    assert("winc"@ != "movetime"@) by { assert("winc"@.len() != "movetime"@.len()); }
    assert("winc"@ != "depth"@) by { assert("winc"@.len() != "depth"@.len()); }
    assert("winc"@ != "nodes"@) by { assert("winc"@.len() != "nodes"@.len()); }
    assert("winc"@ != "infinite"@) by { assert("winc"@.len() != "infinite"@.len()); }
    assert("winc"@ != "movestogo"@) by { assert("winc"@.len() != "movestogo"@.len()); }
    assert("winc"@ != "mate"@) by { assert("winc"@[0] != "mate"@[0]); }
    assert("winc"@ != "perft"@) by { assert("winc"@.len() != "perft"@.len()); }
    assert("winc"@ != "searchmoves"@) by { assert("winc"@.len() != "searchmoves"@.len()); }
    lemma_decimal_reads_back(0, u64::MAX as nat);
    assert(SearchTime { white_increment: None, ..no_limits() } == no_limits());
    lemma_parse_go_two(seq!["winc"@, decimal(0)], Some(SearchType::Normal(no_limits())));
}

/// What each `go` parameter means: given alone with a number `n` in range (written in decimal), a
/// clock, increment, move time, depth, node count, checkmate distance or moves-to-go label sets
/// exactly its own limit to `n` (an increment of zero is no increment), `perft` asks for a move
/// path count of depth `n`, and `infinite` or `ponder` alone set just that.
pub proof fn lemma_go_labels(n: nat)
    ensures
        n <= u64::MAX ==> parse_go_from(seq!["wtime"@, decimal(n)], 0, None) == Ok::<Option<SearchType>, GoParseError>(
            Some(SearchType::Normal(SearchTime { white_time: Some(n as u64), ..no_limits() })),
        ),
        n <= u64::MAX ==> parse_go_from(seq!["btime"@, decimal(n)], 0, None) == Ok::<Option<SearchType>, GoParseError>(
            Some(SearchType::Normal(SearchTime { black_time: Some(n as u64), ..no_limits() })),
        ),
        0 < n <= u64::MAX ==> parse_go_from(seq!["winc"@, decimal(n)], 0, None) == Ok::<Option<SearchType>, GoParseError>(
            Some(SearchType::Normal(SearchTime { white_increment: Some(n as u64), ..no_limits() })),
        ),
        0 < n <= u64::MAX ==> parse_go_from(seq!["binc"@, decimal(n)], 0, None) == Ok::<Option<SearchType>, GoParseError>(
            Some(SearchType::Normal(SearchTime { black_increment: Some(n as u64), ..no_limits() })),
        ),
        n <= u64::MAX ==> parse_go_from(seq!["movetime"@, decimal(n)], 0, None) == Ok::<Option<SearchType>, GoParseError>(
            Some(SearchType::Normal(SearchTime { fixed_time: Some(n as u64), ..no_limits() })),
        ),
        n <= u8::MAX ==> parse_go_from(seq!["depth"@, decimal(n)], 0, None) == Ok::<Option<SearchType>, GoParseError>(
            Some(SearchType::Normal(SearchTime { depth: Some(n as u8), ..no_limits() })),
        ),
        n <= u64::MAX ==> parse_go_from(seq!["nodes"@, decimal(n)], 0, None) == Ok::<Option<SearchType>, GoParseError>(
            Some(SearchType::Normal(SearchTime { nodes: Some(n as u64), ..no_limits() })),
        ),
        n < 128 ==> parse_go_from(seq!["mate"@, decimal(n)], 0, None) == Ok::<Option<SearchType>, GoParseError>(
            Some(SearchType::Normal(SearchTime { mate_in_moves: Some(n as u8), ..no_limits() })),
        ),
        0 < n <= u16::MAX ==> parse_go_from(seq!["movestogo"@, decimal(n)], 0, None) == Ok::<Option<SearchType>, GoParseError>(
            Some(SearchType::Normal(SearchTime { moves_to_go: Some(n as u16), ..no_limits() })),
        ),
        n <= u16::MAX ==> parse_go_from(seq!["perft"@, decimal(n)], 0, None) == Ok::<Option<SearchType>, GoParseError>(
            Some(SearchType::Perft(n as u16)),
        ),
        parse_go_from(seq!["infinite"@], 0, None) == Ok::<Option<SearchType>, GoParseError>(
            Some(SearchType::Normal(SearchTime { infinite: true, ..no_limits() })),
        ),
        parse_go_from(seq!["ponder"@], 0, None) == Ok::<Option<SearchType>, GoParseError>(
            Some(SearchType::Normal(SearchTime { pondering: Some(true), ..no_limits() })),
        ),
        parse_go_from(seq!["winc"@, decimal(0)], 0, None) == Ok::<Option<SearchType>, GoParseError>(
            Some(SearchType::Normal(no_limits())),
        ),
{
    if n <= u64::MAX {
        lemma_go_label_wtime(n);
    }
    if n <= u64::MAX {
        lemma_go_label_btime(n);
    }
    if 0 < n <= u64::MAX {
        lemma_go_label_winc(n);
    }
    if 0 < n <= u64::MAX {
        lemma_go_label_binc(n);
    }
    if n <= u64::MAX {
        lemma_go_label_movetime(n);
    }
    if n <= u8::MAX {
        lemma_go_label_depth(n);
    }
    if n <= u64::MAX {
        lemma_go_label_nodes(n);
    }
    if n < 128 {
        lemma_go_label_mate(n);
    }
    if 0 < n <= u16::MAX {
        lemma_go_label_movestogo(n);
    }
    if n <= u16::MAX {
        lemma_go_label_perft(n);
    }
    lemma_go_label_infinite();
    lemma_go_label_ponder();
    lemma_go_label_winc_zero();
}

/// Two words read as one parameter with its value.
proof fn lemma_parse_go_two(ws: Seq<Seq<char>>, st: Option<SearchType>)
    requires
        ws.len() == 2,
        go_step(ws, 0, None) == Ok::<(Option<SearchType>, bool), GoParseError>((st, true)),
    ensures
        parse_go_from(ws, 0, None) == Ok::<Option<SearchType>, GoParseError>(st),
{
    assert(parse_go_from(ws, 2, st) == Ok::<Option<SearchType>, GoParseError>(st));
}

/// Parsed parameters of `go`.
pub struct GoParameters {
    /// What to do, if anything was given yet.
    pub search_type: Option<SearchType>,
}

/// Whether the characters `w` are the string `lit`.
fn is_word(w: &Vec<char>, lit: &str) -> (r: bool)
    ensures
        r == (w@ == lit@),
{
    let l = chars_of(lit);
    if w.len() != l.len() {
        return false;
    }
    let mut i: usize = 0;
    while i < w.len()
        invariant
            i <= w@.len(),
            w@.len() == l@.len(),
            l@ == lit@,
            forall|j: int| 0 <= j < i ==> w@[j] == l@[j],
        decreases w@.len() - i,
    {
        if w[i] != l[i] {
            proof {
                assert(w@[i as int] != l@[i as int]);
            }
            return false;
        }
        i = i + 1;
    }
    proof {
        assert(w@ =~= l@);
    }
    true
}

/// [`number_after`] on words.
fn read_number_after(ws: &Vec<Vec<char>>, i: usize, max: u64) -> (r: Result<u64, GoParseError>)
    requires
        i < ws@.len(),
    ensures
        r matches Ok(v) ==> number_after(ws@.map_values(|w: Vec<char>| w@), i as int, max as nat) == Ok::<nat, GoParseError>(v as nat),
        r matches Err(e) ==> number_after(ws@.map_values(|w: Vec<char>| w@), i as int, max as nat) == Err::<nat, GoParseError>(e),
{
    if i >= ws.len() - 1 {
        return Err(GoParseError::MissingValue);
    }
    match parse_unsigned_exec(&ws[i + 1], max) {
        Some(v) => Ok(v),
        None => Err(GoParseError::InvalidNumber),
    }
}

/// [`increment_after`] on words.
fn read_increment_after(ws: &Vec<Vec<char>>, i: usize) -> (r: Result<Option<u64>, GoParseError>)
    requires
        i < ws@.len(),
    ensures
        r == increment_after(ws@.map_values(|w: Vec<char>| w@), i as int),
{
    if i >= ws.len() - 1 {
        return Err(GoParseError::MissingValue);
    }
    match parse_unsigned_exec(&ws[i + 1], u64::MAX) {
        Some(v) => if v == 0 {
            Ok(None)
        } else {
            Ok(Some(v))
        },
        None => Ok(None),
    }
}

impl GoParameters {
    /// Returns empty parameters.
    pub fn empty() -> (r: Self)
        ensures
            r.search_type is None,
    {
        GoParameters { search_type: None }
    }

    /// Reads the white-space separated parameters of `args` in order: search limits make a normal
    /// search, `perft` and its depth a move path count. Repeated or conflicting labels, unknown
    /// labels, missing or bad numbers and mates too far away give an error rather than stopping
    /// the program.
    pub fn parse(&mut self, args: &str) -> (r: Result<(), GoParseError>)
        ensures
            r is Ok <==> parse_go_from(words(args@), 0, old(self).search_type) is Ok,
            r is Ok ==> parse_go_from(words(args@), 0, old(self).search_type) == Ok::<Option<SearchType>, GoParseError>(
                final(self).search_type,
            ),
            r matches Err(e) ==> parse_go_from(words(args@), 0, old(self).search_type) == Err::<Option<SearchType>, GoParseError>(e),
    {
        let chars = chars_of(args);
        let ws = split_words(&chars);
        let ghost wv = ws@.map_values(|w: Vec<char>| w@);
        proof {
            assert(wv =~= words(args@));
        }
        let mut i: usize = 0;
        while i < ws.len()
            invariant
                i <= ws@.len(),
                wv == ws@.map_values(|w: Vec<char>| w@),
                wv == words(args@),
                parse_go_from(wv, i as nat, self.search_type) == parse_go_from(wv, 0, old(self).search_type),
            decreases ws@.len() - i,
        {
            let step = Self::step(&ws, i, self.search_type);
            match step {
                Ok((st, extra)) => {
                    self.search_type = st;
                    if extra {
                        i = i + 2;
                    } else {
                        i = i + 1;
                    }
                    if i > ws.len() {
                        i = ws.len();
                    }
                },
                Err(e) => {
                    return Err(e);
                },
            }
        }
        Ok(())
    }

    /// [`go_step`] on words.
    fn step(ws: &Vec<Vec<char>>, i: usize, st: Option<SearchType>) -> (r: Result<(Option<SearchType>, bool), GoParseError>)
        requires
            i < ws@.len(),
        ensures
            r == go_step(ws@.map_values(|w: Vec<char>| w@), i as int, st),
    {
        let ghost wv = ws@.map_values(|w: Vec<char>| w@);
        let label = &ws[i];
        proof {
            assert(wv[i as int] == label@);
        }
        if is_word(label, "wtime") || is_word(label, "btime") || is_word(label, "winc") || is_word(label, "binc")
            || is_word(label, "ponder") || is_word(label, "movetime") || is_word(label, "depth") || is_word(label, "nodes")
            || is_word(label, "infinite") || is_word(label, "movestogo") || is_word(label, "mate") {
            let base = match st {
                None => SearchTime::default(),
                Some(SearchType::Normal(t)) => t,
                Some(SearchType::Perft(_)) => {
                    return Err(GoParseError::SearchTypeDetermined);
                },
            };
            match Self::limit(ws, i, base) {
                Ok((t2, extra)) => Ok((Some(SearchType::Normal(t2)), extra)),
                Err(e) => Err(e),
            }
        } else if is_word(label, "perft") {
            if let Some(SearchType::Perft(_)) = st {
                return Err(GoParseError::SearchTypeDetermined);
            }
            match read_number_after(ws, i, u16::MAX as u64) {
                Ok(v) => Ok((Some(SearchType::Perft(v as u16)), true)),
                Err(e) => Err(e),
            }
        } else if is_word(label, "searchmoves") {
            Err(GoParseError::SearchMoves)
        } else {
            Err(GoParseError::UnknownParameter)
        }
    }

    /// [`limit_step`] on words.
    #[verifier::spinoff_prover]
    #[verifier::rlimit(50)]
    fn limit(ws: &Vec<Vec<char>>, i: usize, t: SearchTime) -> (r: Result<(SearchTime, bool), GoParseError>)
        requires
            i < ws@.len(),
            is_limit_label(ws@[i as int]@),
        ensures
            r == limit_step(ws@.map_values(|w: Vec<char>| w@), i as int, t),
    {
        let ghost wv = ws@.map_values(|w: Vec<char>| w@);
        let label = &ws[i];
        proof {
            assert(wv[i as int] == label@);
        }
        let mut t = t;
        if is_word(label, "wtime") {
            if t.white_time.is_some() {
                return Err(GoParseError::Repeated);
            }
            let v = match read_number_after(ws, i, u64::MAX) {
                Ok(v) => v,
                Err(e) => {
                    return Err(e);
                },
            };
            t.white_time = Some(v);
            Ok((t, true))
        } else if is_word(label, "btime") {
            if t.black_time.is_some() {
                return Err(GoParseError::Repeated);
            }
            let v = match read_number_after(ws, i, u64::MAX) {
                Ok(v) => v,
                Err(e) => {
                    return Err(e);
                },
            };
            t.black_time = Some(v);
            Ok((t, true))
        } else if is_word(label, "winc") {
            if t.white_increment.is_some() {
                return Err(GoParseError::Repeated);
            }
            let v = match read_increment_after(ws, i) {
                Ok(v) => v,
                Err(e) => {
                    return Err(e);
                },
            };
            t.white_increment = v;
            Ok((t, true))
        } else if is_word(label, "binc") {
            if t.black_increment.is_some() {
                return Err(GoParseError::Repeated);
            }
            let v = match read_increment_after(ws, i) {
                Ok(v) => v,
                Err(e) => {
                    return Err(e);
                },
            };
            t.black_increment = v;
            Ok((t, true))
        } else if is_word(label, "ponder") {
            if t.pondering.is_some() {
                return Err(GoParseError::Repeated);
            }
            t.pondering = Some(true);
            Ok((t, false))
        } else if is_word(label, "movetime") {
            if t.fixed_time.is_some() {
                return Err(GoParseError::Repeated);
            }
            let v = match read_number_after(ws, i, u64::MAX) {
                Ok(v) => v,
                Err(e) => {
                    return Err(e);
                },
            };
            t.fixed_time = Some(v);
            Ok((t, true))
        } else if is_word(label, "depth") {
            if t.depth.is_some() {
                return Err(GoParseError::Repeated);
            }
            let v = match read_number_after(ws, i, u8::MAX as u64) {
                Ok(v) => v,
                Err(e) => {
                    return Err(e);
                },
            };
            t.depth = Some(v as u8);
            Ok((t, true))
        } else if is_word(label, "nodes") {
            if t.nodes.is_some() {
                return Err(GoParseError::Repeated);
            }
            let v = match read_number_after(ws, i, u64::MAX) {
                Ok(v) => v,
                Err(e) => {
                    return Err(e);
                },
            };
            t.nodes = Some(v);
            Ok((t, true))
        } else if is_word(label, "infinite") {
            if t.infinite {
                return Err(GoParseError::Repeated);
            }
            t.infinite = true;
            Ok((t, false))
        } else if is_word(label, "movestogo") {
            if t.moves_to_go.is_some() {
                return Err(GoParseError::Repeated);
            }
            let v = match read_number_after(ws, i, u16::MAX as u64) {
                Ok(v) => v,
                Err(e) => {
                    return Err(e);
                },
            };
            if v == 0 {
                return Err(GoParseError::InvalidNumber);
            }
            t.moves_to_go = Some(v as u16);
            Ok((t, true))
        } else {
            if t.mate_in_moves.is_some() {
                return Err(GoParseError::Repeated);
            }
            let v = match read_number_after(ws, i, u8::MAX as u64) {
                Ok(v) => v,
                Err(e) => {
                    return Err(e);
                },
            };
            if v >= 128 {
                return Err(GoParseError::MateTooFar);
            }
            t.mate_in_moves = Some(v as u8);
            Ok((t, true))
        }
    }

    /// What to do: a normal search within limits, a move path count, or nothing given.
    pub fn search_type(self) -> (r: Option<SearchType>)
        ensures
            r == self.search_type,
    {
        self.search_type
    }
}

} // verus!
