# encrustant

A UCI chess engine whose core is written in Verus and proved against its contracts.

## Layout

- `src/` is the verified library.
  - `board/`: bit boards, squares, pieces, the game state, Zobrist keys and FEN reading and
    writing.
  - `move_generator/`: legal move generation (pins, checks, en passant, castling), the slider
    rays, and making and unmaking moves.
  - `perft.rs`: counting the move paths of a given length.
  - `search/`: evaluation, move ordering, the transposition and repetition tables, the time
    manager and the alpha-beta search with its pruning and reduction rules.
  - `uci/`: the UCI commands, `go` parameters and moves in UCI notation.
  - `magic.rs`: the search for magic numbers and the layout of the combined slider table.
  - `text.rs`, `timer.rs`: character helpers and the clock.
- `app/main.rs` runs the engine: the UCI loop on standard input and output, the search thread,
  the benchmark and the magic number search.
- `tests/` holds the tests of the library.

Each public function states in its `ensures` clause, over spec functions, what it returns or,
where the result rests on the clock, on flags set by another thread or on random numbers, what
holds whatever those gave; the decisions on such values are functions of their own. The laws
that relate several functions (a move made and unmade leaves the board as it was, the
incrementally updated Zobrist key equals the key computed from scratch, every move is
generated once, asking for captures only gives exactly the capturing moves, king steps are generated exactly when they leave the king unattacked,
a board's FEN text reads back as the board, swapping the colours
negates the table score and, with the other side to move, keeps the evaluation, move path counts are determined by the position, and others) are public proof
functions next to the code they speak of.
