use vstd::prelude::*;

verus! {

/// Number of rows of the board; row 0 is the top.
pub const ROWS: usize = 6;

/// Number of columns of the board.
pub const COLS: usize = 7;

/// One of the two players' pieces; `PieceX` moves first.
#[derive(Debug, Clone, Copy, PartialEq, Eq, Structural)]
pub enum Piece {
    PieceX,
    PieceO,
}

/// A finished game: one piece has four in a row, or the board filled up.
#[derive(Debug, Clone, Copy, PartialEq, Eq, Structural)]
pub enum Winner {
    WinnerX,
    WinnerO,
    Tie,
}

/// Why a move was refused.
#[derive(Debug, Clone, Copy, PartialEq, Eq, Structural)]
pub enum Error {
    InvalidMove,
    NoSpaceLeftInColumn,
}

/// The eight compass directions; north is towards row 0.
#[derive(Debug, Clone, Copy, PartialEq, Eq, Structural)]
pub enum Direction {
    N,
    NE,
    E,
    SE,
    S,
    SW,
    W,
    NW,
}

/// A board square: empty, or holding one piece.
pub type Tile = Option<Piece>;

impl Piece {
    pub open spec fn spec_opposite(self) -> Piece {
        match self {
            Piece::PieceX => Piece::PieceO,
            Piece::PieceO => Piece::PieceX,
        }
    }

    /// The other player's piece.
    #[verifier::when_used_as_spec(spec_opposite)]
    pub fn opposite(self) -> (r: Piece)
        ensures
            r == self.spec_opposite(),
    {
        match self {
            Piece::PieceX => Piece::PieceO,
            Piece::PieceO => Piece::PieceX,
        }
    }
}

impl Default for Piece {
    fn default() -> (r: Piece)
        ensures
            r == Piece::PieceX,
    {
        Piece::PieceX
    }
}

impl Direction {
    pub open spec fn spec_reverse(self) -> Direction {
        match self {
            Direction::N => Direction::S,
            Direction::NE => Direction::SW,
            Direction::E => Direction::W,
            Direction::SE => Direction::NW,
            Direction::S => Direction::N,
            Direction::SW => Direction::NE,
            Direction::W => Direction::E,
            Direction::NW => Direction::SE,
        }
    }

    /// The opposite direction.
    #[verifier::when_used_as_spec(spec_reverse)]
    pub fn reverse(self) -> (r: Direction)
        ensures
            r == self.spec_reverse(),
    {
        match self {
            Direction::N => Direction::S,
            Direction::NE => Direction::SW,
            Direction::E => Direction::W,
            Direction::SE => Direction::NW,
            Direction::S => Direction::N,
            Direction::SW => Direction::NE,
            Direction::W => Direction::E,
            Direction::NW => Direction::SE,
        }
    }
}

/// The abstract state of a game: the board as columns (each listed top to
/// bottom), the piece to move, and the outcome once there is one.
pub struct GameView {
    pub board: Seq<Seq<Tile>>,
    pub turn: Piece,
    pub outcome: Option<Winner>,
}

/// Number of occupied tiles in a column.
pub open spec fn count_some(col: Seq<Tile>) -> nat
    decreases col.len(),
{
    if col.len() == 0 {
        0
    } else {
        count_some(col.drop_last()) + if col.last() is Some { 1nat } else { 0nat }
    }
}

/// Number of occupied tiles on a board.
pub open spec fn total(board: Seq<Seq<Tile>>) -> nat
    decreases board.len(),
{
    if board.len() == 0 {
        0
    } else {
        total(board.drop_last()) + count_some(board.last())
    }
}

/// The piece to move after `n` moves.
pub open spec fn turn_after(n: nat) -> Piece {
    if n % 2 == 0 {
        Piece::PieceX
    } else {
        Piece::PieceO
    }
}

/// The row where a piece dropped into a column with `height` occupied tiles lands.
pub open spec fn landing_row(height: nat) -> int {
    ROWS - 1 - height
}

/// The square reached from `(c, r)` after `s` steps in direction `d`.
pub open spec fn target(c: int, r: int, d: Direction, s: int) -> (int, int) {
    match d {
        Direction::N => (c, r - s),
        Direction::NE => (c + s, r - s),
        Direction::E => (c + s, r),
        Direction::SE => (c + s, r + s),
        Direction::S => (c, r + s),
        Direction::SW => (c - s, r + s),
        Direction::W => (c - s, r),
        Direction::NW => (c - s, r - s),
    }
}

/// The square `at` is on the board and holds `p`.
pub open spec fn holds(board: Seq<Seq<Tile>>, p: Piece, at: (int, int)) -> bool {
    &&& 0 <= at.0 < COLS
    &&& 0 <= at.1 < ROWS
    &&& board[at.0][at.1] == Some(p)
}

/// The square `s` steps from `(c, r)` in direction `d` is on the board and holds `p`.
pub open spec fn step_matches(
    board: Seq<Seq<Tile>>,
    p: Piece,
    c: int,
    r: int,
    d: Direction,
    s: int,
) -> bool {
    holds(board, p, target(c, r, d, s))
}

/// Four in a row of `p`: the square `(c, r)` and the three after it in
/// direction `d` are on the board and hold `p`.
pub open spec fn four_at(board: Seq<Seq<Tile>>, p: Piece, c: int, r: int, d: Direction) -> bool {
    &&& step_matches(board, p, c, r, d, 0)
    &&& step_matches(board, p, c, r, d, 1)
    &&& step_matches(board, p, c, r, d, 2)
    &&& step_matches(board, p, c, r, d, 3)
}

/// The board holds four in a row of `p` somewhere, in any direction.
pub open spec fn has_four(board: Seq<Seq<Tile>>, p: Piece) -> bool {
    exists|c: int, r: int, d: Direction| #[trigger] four_at(board, p, c, r, d)
}

/// Four in a row of `p` in direction `d` that takes in `(c, r)` as its
/// `k`-th square, counting from 0.
pub open spec fn four_through(
    board: Seq<Seq<Tile>>,
    p: Piece,
    c: int,
    r: int,
    d: Direction,
    k: int,
) -> bool {
    let start = target(c, r, d, -k);
    four_at(board, p, start.0, start.1, d)
}

/// The piece at `(c, r)` is part of four in a row.
pub open spec fn tile_wins(board: Seq<Seq<Tile>>, c: int, r: int) -> bool {
    exists|d: Direction, k: int| 0 <= k < 4 && #[trigger] four_through(board, board[c][r]->0, c, r, d, k)
}

/// The winner that a piece with four in a row makes.
pub open spec fn winner_of(p: Piece) -> Winner {
    match p {
        Piece::PieceX => Winner::WinnerX,
        Piece::PieceO => Winner::WinnerO,
    }
}

/// Every tile of the board is occupied.
pub open spec fn is_full(board: Seq<Seq<Tile>>) -> bool {
    forall|c: int, r: int| 0 <= c < COLS && 0 <= r < ROWS ==> (#[trigger] board[c][r]) is Some
}

/// The outcome of a board: a win for a piece with four in a row, else a tie
/// on a full board, else none yet. (Play stops at the first four, so a
/// reachable board never holds fours of both pieces.)
pub open spec fn outcome_of(board: Seq<Seq<Tile>>) -> Option<Winner> {
    if has_four(board, Piece::PieceX) {
        Some(Winner::WinnerX)
    } else if has_four(board, Piece::PieceO) {
        Some(Winner::WinnerO)
    } else if is_full(board) {
        Some(Winner::Tie)
    } else {
        None
    }
}


/// The board has the game's shape, and in every column the occupied tiles
/// are exactly the bottom ones.
pub open spec fn settled(board: Seq<Seq<Tile>>) -> bool {
    &&& board.len() == COLS
    &&& forall|c: int| 0 <= c < COLS ==> (#[trigger] board[c]).len() == ROWS
    &&& forall|c: int, r: int|
        0 <= c < COLS && 0 <= r < ROWS ==> ((#[trigger] board[c][r]) is Some <==> r >= ROWS
            - count_some(board[c]))
}

impl GameView {
    /// A reachable game state: settled board, turn given by the number of
    /// moves made, and outcome given by the board.
    pub open spec fn valid(self) -> bool {
        &&& settled(self.board)
        &&& self.turn == turn_after(total(self.board))
        &&& self.outcome == outcome_of(self.board)
    }
}

/// Row `r` of a board, left to right.
pub open spec fn row_of(board: Seq<Seq<Tile>>, r: int) -> Seq<Tile> {
    Seq::new(COLS as nat, |c: int| board[c][r])
}

/// The empty board.
pub open spec fn empty_board() -> Seq<Seq<Tile>> {
    Seq::new(COLS as nat, |c: int| Seq::new(ROWS as nat, |r: int| None))
}

/// The state of a new game.
pub open spec fn initial() -> GameView {
    GameView { board: empty_board(), turn: Piece::PieceX, outcome: None }
}

/// Dropping the piece to move into column `col`.
pub open spec fn apply(v: GameView, col: int) -> Result<GameView, Error> {
    if v.outcome is Some || col < 0 || col >= COLS {
        Err(Error::InvalidMove)
    } else if v.board[col][0] is Some {
        Err(Error::NoSpaceLeftInColumn)
    } else {
        let nb = v.board.update(
            col,
            v.board[col].update(landing_row(count_some(v.board[col])), Some(v.turn)),
        );
        Ok(GameView { board: nb, turn: v.turn.opposite(), outcome: outcome_of(nb) })
    }
}

/// Playing the columns of `moves` in order, stopping at the first refusal.
pub open spec fn run(v: GameView, moves: Seq<int>) -> Result<GameView, Error>
    decreases moves.len(),
{
    if moves.len() == 0 {
        Ok(v)
    } else {
        match apply(v, moves[0]) {
            Ok(w) => run(w, moves.drop_first()),
            Err(e) => Err(e),
        }
    }
}

proof fn lemma_count_le_len(col: Seq<Tile>)
    ensures
        count_some(col) <= col.len(),
    decreases col.len(),
{
    if col.len() > 0 {
        lemma_count_le_len(col.drop_last());
    }
}

proof fn lemma_count_update(col: Seq<Tile>, i: int, p: Piece)
    requires
        0 <= i < col.len(),
        col[i] is None,
    ensures
        count_some(col.update(i, Some(p))) == count_some(col) + 1,
    decreases col.len(),
{
    let u = col.update(i, Some(p));
    if i == col.len() - 1 {
        assert(u.drop_last() =~= col.drop_last());
    } else {
        assert(u.drop_last() =~= col.drop_last().update(i, Some(p)));
        lemma_count_update(col.drop_last(), i, p);
    }
}

proof fn lemma_total_update(board: Seq<Seq<Tile>>, c: int, col: Seq<Tile>)
    requires
        0 <= c < board.len(),
    ensures
        total(board.update(c, col)) + count_some(board[c]) == total(board) + count_some(col),
    decreases board.len(),
{
    let u = board.update(c, col);
    if c == board.len() - 1 {
        assert(u.drop_last() =~= board.drop_last());
    } else {
        assert(u.drop_last() =~= board.drop_last().update(c, col));
        lemma_total_update(board.drop_last(), c, col);
    }
}

proof fn lemma_count_none(n: nat)
    ensures
        count_some(Seq::new(n, |r: int| None::<Piece>)) == 0,
    decreases n,
{
    if n > 0 {
        assert(Seq::new(n, |r: int| None::<Piece>).drop_last() =~= Seq::new(
            (n - 1) as nat,
            |r: int| None::<Piece>,
        ));
        lemma_count_none((n - 1) as nat);
    }
}

proof fn lemma_total_empty(n: nat)
    requires
        n <= COLS,
    ensures
        total(empty_board().take(n as int)) == 0,
    decreases n,
{
    if n > 0 {
        assert(empty_board().take(n as int).drop_last() =~= empty_board().take(n - 1));
        lemma_total_empty((n - 1) as nat);
        lemma_count_none(ROWS as nat);
    }
}

/// A new game is a valid state: empty, `PieceX` to move, no outcome.
pub proof fn lemma_initial_valid()
    ensures
        initial().valid(),
        total(initial().board) == 0,
{
    lemma_total_empty(COLS as nat);
    assert(empty_board().take(COLS as int) =~= empty_board());
    lemma_count_none(ROWS as nat);
    assert forall|p: Piece, c: int, r: int, d: Direction| !#[trigger] four_at(empty_board(), p, c, r, d) by {
        if 0 <= c < COLS && 0 <= r < ROWS {
            assert(empty_board()[c][r] is None);
        }
    }
    assert(!is_full(empty_board())) by {
        assert(empty_board()[0][0] is None);
    }
}

/// Stepping back `k` squares towards `d` is stepping `k` squares towards the
/// reverse of `d`, and steps along one direction add up.
pub(crate) proof fn lemma_target_shift(c: int, r: int, d: Direction, k: int, j: int)
    ensures
        target(c, r, d, -k) == target(c, r, d.reverse(), k),
        target(target(c, r, d, -k).0, target(c, r, d, -k).1, d, j) == target(c, r, d, j - k),
{
}

/// A move that succeeds on a valid state puts the piece to move on the
/// lowest empty row of the column, changes nothing else on the board, and
/// leaves a valid state with one more occupied tile.
pub proof fn lemma_apply_ok(v: GameView, col: int)
    requires
        v.valid(),
        apply(v, col) is Ok,
    ensures
        ({
            let w = apply(v, col)->Ok_0;
            let h = count_some(v.board[col]);
            &&& w.valid()
            &&& h < ROWS
            &&& w.board[col] == v.board[col].update(landing_row(h), Some(v.turn))
            &&& w.board[col][landing_row(h)] == Some(v.turn)
            &&& h == 0 ==> w.board[col][ROWS - 1] == Some(v.turn)
            &&& count_some(w.board[col]) == h + 1
            &&& forall|c: int| 0 <= c < COLS && c != col ==> #[trigger] w.board[c] == v.board[c]
            &&& total(w.board) == total(v.board) + 1
            &&& w.turn == v.turn.opposite()
        }),
{
    let w = apply(v, col)->Ok_0;
    let h = count_some(v.board[col]);
    lemma_count_le_len(v.board[col]);
    assert(v.board[col][0] is None);
    assert(h < ROWS);
    let row = landing_row(h);
    assert(v.board[col][row] is None);
    let ncol = v.board[col].update(row, Some(v.turn));
    lemma_count_update(v.board[col], row, v.turn);
    lemma_total_update(v.board, col, ncol);
    assert forall|c: int, r: int| 0 <= c < COLS && 0 <= r < ROWS implies (#[trigger] w.board[c][r]) is Some
        <==> r >= ROWS - count_some(w.board[c]) by {
        if c == col {
            if r != row {
                assert(w.board[c][r] == v.board[c][r]);
            }
        } else {
            assert(w.board[c] == v.board[c]);
        }
    }
    assert(total(w.board) % 2 != total(v.board) % 2);
}

/// A run of successful moves from a valid state ends in a valid state with
/// one more occupied tile per move.
pub proof fn lemma_run_valid(v: GameView, moves: Seq<int>)
    requires
        v.valid(),
        run(v, moves) is Ok,
    ensures
        run(v, moves)->Ok_0.valid(),
        total(run(v, moves)->Ok_0.board) == total(v.board) + moves.len(),
    decreases moves.len(),
{
    if moves.len() > 0 {
        lemma_apply_ok(v, moves[0]);
        lemma_run_valid(apply(v, moves[0])->Ok_0, moves.drop_first());
    }
}

/// Turns alternate: after any run of successful moves from a new game,
/// `PieceX` is to move after an even number of them and `PieceO` after an
/// odd number.
pub proof fn lemma_turn_alternation(moves: Seq<int>)
    requires
        run(initial(), moves) is Ok,
    ensures
        run(initial(), moves)->Ok_0.turn == if moves.len() % 2 == 0 {
            Piece::PieceX
        } else {
            Piece::PieceX.opposite()
        },
{
    lemma_initial_valid();
    lemma_run_valid(initial(), moves);
}

proof fn lemma_run_column(v: GameView, col: int, n: nat)
    requires
        v.valid(),
        run(v, Seq::new(n, |i: int| col)) is Ok,
    ensures
        n > 0 ==> 0 <= col < COLS,
        count_some(run(v, Seq::new(n, |i: int| col))->Ok_0.board[col]) == count_some(v.board[col])
            + n,
    decreases n,
{
    if n > 0 {
        let moves = Seq::new(n, |i: int| col);
        assert(moves.drop_first() =~= Seq::new((n - 1) as nat, |i: int| col));
        lemma_apply_ok(v, col);
        lemma_run_column(apply(v, col)->Ok_0, col, (n - 1) as nat);
    }
}

/// A column takes `ROWS` pieces: after that many successful drops into one
/// column, one more drop there is refused with `NoSpaceLeftInColumn`, as
/// long as the game has not ended.
pub proof fn lemma_full_column(v: GameView, col: int)
    requires
        v.valid(),
        run(v, Seq::new(ROWS as nat, |i: int| col)) is Ok,
        run(v, Seq::new(ROWS as nat, |i: int| col))->Ok_0.outcome is None,
    ensures
        apply(run(v, Seq::new(ROWS as nat, |i: int| col))->Ok_0, col) == Err::<GameView, Error>(
            Error::NoSpaceLeftInColumn,
        ),
{
    let w = run(v, Seq::new(ROWS as nat, |i: int| col))->Ok_0;
    lemma_run_column(v, col, ROWS as nat);
    lemma_run_valid(v, Seq::new(ROWS as nat, |i: int| col));
    lemma_count_le_len(w.board[col]);
    assert(w.board[col][0] is Some);
}

/// A column index outside `0..COLS` is refused with `InvalidMove`.
pub proof fn lemma_out_of_range(v: GameView, col: int)
    requires
        col < 0 || col >= COLS,
    ensures
        apply(v, col) == Err::<GameView, Error>(Error::InvalidMove),
{
}

/// Once the game has an outcome, every further move is refused with
/// `InvalidMove`, so the state stays as it is.
pub proof fn lemma_finished_refuses(v: GameView, moves: Seq<int>)
    requires
        v.outcome is Some,
        moves.len() > 0,
    ensures
        run(v, moves) == Err::<GameView, Error>(Error::InvalidMove),
{
}

/// After a successful move on a valid state, the game is won by the piece
/// just dropped exactly when that piece is part of four in a row; otherwise
/// it is a tie on a full board, and goes on otherwise.
pub proof fn lemma_outcome_after_move(v: GameView, col: int)
    requires
        v.valid(),
        apply(v, col) is Ok,
    ensures
        ({
            let b = apply(v, col)->Ok_0.board;
            let row = landing_row(count_some(v.board[col]));
            outcome_of(b) == if tile_wins(b, col, row) {
                Some(winner_of(v.turn))
            } else if is_full(b) {
                Some(Winner::Tie)
            } else {
                None
            }
        }),
{
    lemma_apply_ok(v, col);
    let b = apply(v, col)->Ok_0.board;
    let row = landing_row(count_some(v.board[col]));
    assert forall|q: Piece, c: int, r: int, d: Direction| #[trigger] four_at(b, q, c, r, d) implies q
        == v.turn && tile_wins(b, col, row) by {
        lemma_four_takes_new_tile(v, col, q, c, r, d);
        let k = choose|k: int| 0 <= k < 4 && target(c, r, d, k) == (col, row);
        lemma_target_shift(col, row, d, k, k);
        lemma_target_shift(c, r, d, 0, 0);
        assert(target(col, row, d, -k) == (c, r)) by {
            lemma_target_back(c, r, d, k);
        }
        assert(four_through(b, b[col][row]->0, col, row, d, k));
    }
    if tile_wins(b, col, row) {
        let (d, k) = choose|d: Direction, k: int| 0 <= k < 4 && #[trigger] four_through(b, b[col][row]->0, col, row, d, k);
        let start = target(col, row, d, -k);
        assert(four_at(b, v.turn, start.0, start.1, d));
        if v.turn == Piece::PieceO {
            assert(!has_four(b, Piece::PieceX));
        }
    } else {
        assert(!has_four(b, Piece::PieceX));
        assert(!has_four(b, Piece::PieceO));
    }
}

proof fn lemma_target_back(c: int, r: int, d: Direction, k: int)
    ensures
        ({
            let t = target(c, r, d, k);
            target(t.0, t.1, d, -k) == (c, r)
        }),
{
}

/// Any four in a row after a successful move on a valid state is of the
/// piece just dropped and takes in its square: the state before had none.
proof fn lemma_four_takes_new_tile(v: GameView, col: int, q: Piece, c: int, r: int, d: Direction)
    requires
        v.valid(),
        apply(v, col) is Ok,
        four_at(apply(v, col)->Ok_0.board, q, c, r, d),
    ensures
        q == v.turn,
        exists|k: int|
            0 <= k < 4 && target(c, r, d, k) == (col, landing_row(count_some(v.board[col]))),
{
    lemma_apply_ok(v, col);
    let b = apply(v, col)->Ok_0.board;
    let at = (col, landing_row(count_some(v.board[col])));
    if target(c, r, d, 0) == at {
        assert(0 <= 0int < 4 && target(c, r, d, 0) == at);
    } else if target(c, r, d, 1) == at {
        assert(0 <= 1int < 4 && target(c, r, d, 1) == at);
    } else if target(c, r, d, 2) == at {
        assert(0 <= 2int < 4 && target(c, r, d, 2) == at);
    } else if target(c, r, d, 3) == at {
        assert(0 <= 3int < 4 && target(c, r, d, 3) == at);
    } else {
        assert forall|s: int| 0 <= s < 4 && #[trigger] step_matches(b, q, c, r, d, s) implies step_matches(
            v.board,
            q,
            c,
            r,
            d,
            s,
        ) by {
            let t = target(c, r, d, s);
            if t.0 != col {
                assert(b[t.0] == v.board[t.0]);
            }
        }
        assert(four_at(v.board, q, c, r, d));
        assert(has_four(v.board, q));
    }
}

/// A board is a tie exactly when it is full and neither piece has four in a
/// row; a board where a piece has four in a row is a win, never a tie.
pub proof fn lemma_win_before_tie(board: Seq<Seq<Tile>>, p: Piece)
    ensures
        outcome_of(board) == Some(Winner::Tie) <==> is_full(board) && !has_four(
            board,
            Piece::PieceX,
        ) && !has_four(board, Piece::PieceO),
        has_four(board, p) ==> outcome_of(board) is Some && outcome_of(board) != Some(Winner::Tie),
        outcome_of(board) == Some(winner_of(p)) ==> has_four(board, p),
{
}

} // verus!
