use vstd::prelude::*;

use crate::model::{
    Direction, Error, GameView, Piece, Tile, Winner, COLS, ROWS, apply, count_some, four_through,
    initial, is_full, landing_row, lemma_apply_ok, lemma_initial_valid, lemma_outcome_after_move,
    lemma_target_shift, outcome_of, row_of, step_matches, target, tile_wins, total, turn_after, winner_of,
};

verus! {

/// A game of Connect Four on a 7 by 6 board.
#[derive(Debug)]
pub struct Connect4 {
    // the grid is stored column by column
    columns: [[Tile; ROWS]; COLS],
    current_piece: Piece,
    winner: Option<Winner>,
}

impl View for Connect4 {
    type V = GameView;

    closed spec fn view(&self) -> GameView {
        GameView {
            board: Seq::new(COLS as nat, |c: int| self.columns[c]@),
            turn: self.current_piece,
            outcome: self.winner,
        }
    }
}

impl Connect4 {
    /// The game is in a state that play can reach.
    pub open spec fn wf(&self) -> bool {
        self@.valid()
    }

    /// A new game: empty board, `PieceX` to move, no outcome.
    pub fn new() -> (r: Connect4)
        ensures
            r.wf(),
            r@ == initial(),
            total(r@.board) == 0,
    {
        let empty: [Tile; ROWS] = [None, None, None, None, None, None];
        let r = Connect4 {
            columns: [empty, empty, empty, empty, empty, empty, empty],
            current_piece: Piece::PieceX,
            winner: None,
        };
        proof {
            lemma_initial_valid();
            assert forall|c: int| 0 <= c < COLS implies #[trigger] r@.board[c] == initial().board[c] by {
                assert(r@.board[c] =~= initial().board[c]);
            }
            assert(r@.board =~= initial().board);
        }
        r
    }

    /// The board as rows, top to bottom, each row left to right.
    pub fn to_rows(&self) -> (rows: Vec<Vec<Tile>>)
        ensures
            rows@.len() == ROWS,
            forall|r: int| 0 <= r < ROWS ==> (#[trigger] rows@[r])@ == row_of(self@.board, r),
    {
        let mut rows: Vec<Vec<Tile>> = Vec::new();
        let mut r: usize = 0;
        while r < ROWS
            invariant
                r <= ROWS,
                rows@.len() == r,
                forall|k: int| 0 <= k < r ==> (#[trigger] rows@[k])@ == row_of(self@.board, k),
            decreases ROWS - r,
        {
            let mut row: Vec<Tile> = Vec::new();
            let mut c: usize = 0;
            while c < COLS
                invariant
                    r < ROWS,
                    c <= COLS,
                    row@ == row_of(self@.board, r as int).take(c as int),
                decreases COLS - c,
            {
                row.push(self.columns[c][r]);
                c += 1;
            }
            assert(row@ =~= row_of(self@.board, r as int));
            rows.push(row);
            r += 1;
        }
        rows
    }

    /// The outcome so far: `None` while the game goes on.
    pub fn winner(&self) -> (r: Option<Winner>)
        ensures
            r == self@.outcome,
    {
        self.winner
    }

    /// The piece whose turn it is.
    pub fn current_piece(&self) -> (r: Piece)
        ensures
            r == self@.turn,
            self.wf() ==> r == turn_after(total(self@.board)),
    {
        self.current_piece
    }

    /// Drops the piece to move into column `col`: it lands on the lowest
    /// empty row, the turn passes, and the outcome is updated. A finished
    /// game or a column out of range gives `InvalidMove`, a full column
    /// `NoSpaceLeftInColumn`; a refused move changes nothing.
    pub fn drop_piece(&mut self, col: usize) -> (r: Result<(), Error>)
        requires
            old(self).wf(),
        ensures
            final(self).wf(),
            total(final(self)@.board) == total(old(self)@.board) + if r is Ok { 1nat } else { 0nat },
            match apply(old(self)@, col as int) {
                Ok(w) => r is Ok && final(self)@ == w,
                Err(e) => r == Err::<(), Error>(e) && final(self)@ == old(self)@,
            },
    {
        if self.winner.is_some() || col >= COLS {
            return Err(Error::InvalidMove);
        }
        let ghost v = self@;
        let mut index: Option<usize> = None;
        let mut i: usize = ROWS;
        while i > 0
            invariant_except_break
                index is None,
            invariant
                i <= ROWS,
                col < COLS,
                v == self@,
                forall|j: int| i <= j < ROWS ==> (#[trigger] v.board[col as int][j]) is Some,
            ensures
                match index {
                    Some(k) => k < ROWS && v.board[col as int][k as int] is None && forall|j: int|
                        k < j < ROWS ==> (#[trigger] v.board[col as int][j]) is Some,
                    None => forall|j: int| 0 <= j < ROWS ==> (#[trigger] v.board[col as int][j]) is Some,
                },
            decreases i,
        {
            if self.columns[col][i - 1].is_none() {
                index = Some(i - 1);
                break;
            }
            i -= 1;
        }
        match index {
            Some(index) => {
                proof {
                    let h = count_some(v.board[col as int]);
                    assert(v.board[col as int][index as int] is None);
                    if index + 1 < ROWS {
                        assert(v.board[col as int][index + 1] is Some);
                    }
                    assert(index == ROWS - 1 - h);
                }
                let mut column = self.columns[col];
                column[index] = Some(self.current_piece);
                self.columns[col] = column;
                self.current_piece = self.current_piece.opposite();
                proof {
                    lemma_apply_ok(v, col as int);
                    let w = apply(v, col as int)->Ok_0;
                    assert(self@.board =~~= w.board);
                }
                self.winner = self.check_winner(col, index, Ghost(v));
            },
            None => {
                assert(v.board[col as int][0] is Some);
                return Err(Error::NoSpaceLeftInColumn);
            },
        }
        Ok(())
    }
}

impl Clone for Connect4 {
    fn clone(&self) -> (r: Connect4)
        ensures
            r@ == self@,
    {
        Connect4 { columns: self.columns, current_piece: self.current_piece, winner: self.winner }
    }
}

impl Default for Connect4 {
    fn default() -> (r: Connect4)
        ensures
            r.wf(),
            r@ == initial(),
    {
        Connect4::new()
    }
}

impl Connect4 {
    /// Whether the square `steps` squares from `(col, row)` towards `dir` is
    /// on the board and holds `piece`.
    fn test_direction(&self, piece: Piece, col: usize, row: usize, steps: usize, dir: Direction) -> (r:
        bool)
        requires
            col < COLS,
            row < ROWS,
            steps <= ROWS,
        ensures
            r == step_matches(self@.board, piece, col as int, row as int, dir, steps as int),
    {
        let (next_col, next_row) = match dir {
            Direction::N if row >= steps => (col, row - steps),
            Direction::NE if row >= steps && col < (COLS - steps) => (col + steps, row - steps),
            Direction::E if col < (COLS - steps) => (col + steps, row),
            Direction::SE if row < (ROWS - steps) && col < (COLS - steps) => (
                col + steps,
                row + steps,
            ),
            Direction::S if row < (ROWS - steps) => (col, row + steps),
            Direction::SW if row < (ROWS - steps) && col >= steps => (col - steps, row + steps),
            Direction::W if col >= steps => (col - steps, row),
            Direction::NW if row >= steps && col >= steps => (col - steps, row - steps),
            _ => return false,
        };
        self.columns[next_col][next_row] == Some(piece)
    }

    /// Whether the square `(col, row)`, which holds `piece`, is the `k`-th
    /// of four in a row of `piece` in direction `dir`.
    fn test_line(&self, piece: Piece, col: usize, row: usize, dir: Direction, k: usize) -> (r: bool)
        requires
            col < COLS,
            row < ROWS,
            k < 4,
            self@.board[col as int][row as int] == Some(piece),
        ensures
            r == four_through(self@.board, piece, col as int, row as int, dir, k as int),
    {
        let ghost b = self@.board;
        let ghost start = target(col as int, row as int, dir, -k);
        let back = dir.reverse();
        let mut j: usize = 0;
        while j < 4
            invariant
                j <= 4,
                k < 4,
                col < COLS,
                row < ROWS,
                b == self@.board,
                b[col as int][row as int] == Some(piece),
                back == dir.reverse(),
                start == target(col as int, row as int, dir, -k),
                forall|s: int| 0 <= s < j ==> #[trigger] step_matches(b, piece, start.0, start.1, dir, s),
            decreases 4 - j,
        {
            proof {
                lemma_target_shift(col as int, row as int, dir, k as int, j as int);
                lemma_target_shift(col as int, row as int, dir, (k - j) as int, 0);
            }
            let ok = if j < k {
                self.test_direction(piece, col, row, k - j, back)
            } else if j > k {
                self.test_direction(piece, col, row, j - k, dir)
            } else {
                true
            };
            if !ok {
                return false;
            }
            j += 1;
        }
        true
    }

    /// Looks for four in a row that takes in the occupied square `(col, row)`:
    /// along each direction, each of the four places the square can hold in
    /// the run.
    fn search_tile(&self, col: usize, row: usize) -> (r: Option<Winner>)
        requires
            col < COLS,
            row < ROWS,
            self@.board[col as int][row as int] is Some,
        ensures
            r == if tile_wins(self@.board, col as int, row as int) {
                Some(winner_of(self@.board[col as int][row as int]->0))
            } else {
                None
            },
    {
        let ghost b = self@.board;
        let piece = self.columns[col][row].unwrap();
        let dirs: [Direction; 8] = [
            Direction::N,
            Direction::NE,
            Direction::E,
            Direction::SE,
            Direction::S,
            Direction::SW,
            Direction::W,
            Direction::NW,
        ];
        let mut i: usize = 0;
        while i < 8
            invariant
                0 <= i <= 8,
                col < COLS,
                row < ROWS,
                b == self@.board,
                b[col as int][row as int] == Some(piece),
                dirs@ == seq![
                    Direction::N,
                    Direction::NE,
                    Direction::E,
                    Direction::SE,
                    Direction::S,
                    Direction::SW,
                    Direction::W,
                    Direction::NW,
                ],
                forall|j: int, k: int|
                    0 <= j < i && 0 <= k < 4 ==> !#[trigger] four_through(b, piece, col as int, row as int, dirs@[j], k),
            decreases 8 - i,
        {
            let dir = dirs[i];
            let mut k: usize = 0;
            while k < 4
                invariant
                    k <= 4,
                    i < 8,
                    col < COLS,
                    row < ROWS,
                    b == self@.board,
                    b[col as int][row as int] == Some(piece),
                    dir == dirs@[i as int],
                    forall|j: int, kk: int|
                        0 <= j < i && 0 <= kk < 4 ==> !#[trigger] four_through(b, piece, col as int, row as int, dirs@[j], kk),
                    forall|kk: int| 0 <= kk < k ==> !#[trigger] four_through(b, piece, col as int, row as int, dir, kk),
                decreases 4 - k,
            {
                if self.test_line(piece, col, row, dir, k) {
                    return match piece {
                        Piece::PieceX => Some(Winner::WinnerX),
                        Piece::PieceO => Some(Winner::WinnerO),
                    };
                }
                k += 1;
            }
            i += 1;
        }
        assert forall|d: Direction, k: int| 0 <= k < 4 implies !#[trigger] four_through(b, piece, col as int, row as int, d, k) by {
            match d {
                Direction::N => assert(dirs@[0] == d),
                Direction::NE => assert(dirs@[1] == d),
                Direction::E => assert(dirs@[2] == d),
                Direction::SE => assert(dirs@[3] == d),
                Direction::S => assert(dirs@[4] == d),
                Direction::SW => assert(dirs@[5] == d),
                Direction::W => assert(dirs@[6] == d),
                Direction::NW => assert(dirs@[7] == d),
            }
        }
        None
    }

    /// Whether every square of the board is occupied.
    fn is_full(&self) -> (r: bool)
        ensures
            r == is_full(self@.board),
    {
        let mut c: usize = 0;
        while c < COLS
            invariant
                c <= COLS,
                forall|c2: int, r2: int|
                    0 <= c2 < c && 0 <= r2 < ROWS ==> (#[trigger] self@.board[c2][r2]) is Some,
            decreases COLS - c,
        {
            let mut r: usize = 0;
            while r < ROWS
                invariant
                    c < COLS,
                    r <= ROWS,
                    forall|c2: int, r2: int|
                        0 <= c2 < c && 0 <= r2 < ROWS ==> (#[trigger] self@.board[c2][r2]) is Some,
                    forall|r2: int| 0 <= r2 < r ==> (#[trigger] self@.board[c as int][r2]) is Some,
                decreases ROWS - r,
            {
                if self.columns[c][r].is_none() {
                    return false;
                }
                r += 1;
            }
            c += 1;
        }
        true
    }

    /// The outcome after the piece of `prev`'s turn was dropped into `col`
    /// and landed on `row`: `prev` had no four in a row, so a four now takes
    /// in the new piece; failing that, a full board is a tie.
    fn check_winner(&self, col: usize, row: usize, Ghost(prev): Ghost<GameView>) -> (r: Option<Winner>)
        requires
            prev.valid(),
            apply(prev, col as int) is Ok,
            self@.board == apply(prev, col as int)->Ok_0.board,
            row == landing_row(count_some(prev.board[col as int])),
        ensures
            r == outcome_of(self@.board),
    {
        proof {
            lemma_apply_ok(prev, col as int);
            lemma_outcome_after_move(prev, col as int);
        }
        let winner = self.search_tile(col, row);
        if winner.is_some() {
            return winner;
        }
        if self.is_full() {
            Some(Winner::Tie)
        } else {
            None
        }
    }
}

} // verus!
