//! The chess board: cells, pieces, and the board with the side to move.
//!
//! The board is an 8x8 grid of optional pieces. Its view is a `Position`;
//! the contracts of its methods are stated over that view and the rules of
//! the `rules` module.

use crate::rules::{
    cell_of, lemma_move_keeps_order, on_board, opponent, starting_piece, Coord, Position,
};
use vstd::prelude::*;

verus! {

/// The index of a single cell of the board. Any pair of integers can be
/// written down; only rows and columns from 0 to 7 name a cell of the board.
#[derive(Clone, Copy, Debug, PartialEq, Eq, Structural)]
pub struct Cell {
    pub row: i32,
    pub col: i32,
}

/// The kinds of pieces.
#[derive(Clone, Copy, Debug, PartialEq, Eq, Structural)]
pub enum PieceType {
    Bishop,
    King,
    Knight,
    Pawn,
    Rook,
    Queen,
}

/// The two sides.
#[derive(Clone, Copy, Debug, PartialEq, Eq, Structural)]
pub enum Color {
    Black,
    White,
}

/// A single chess piece: its kind, its side, and the cell it stands on.
#[derive(Clone, Copy, Debug, PartialEq, Eq, Structural)]
pub struct Piece {
    pub piece_type: PieceType,
    pub color: Color,
    pub cell: Cell,
}

/// The board state: the side whose turn it is, and an 8x8 grid of optional
/// pieces indexed by row and column.
#[derive(Debug)]
pub struct Board {
    color: Color,
    board: Vec<Vec<Option<Piece>>>,
}

impl View for Cell {
    type V = Coord;

    open spec fn view(&self) -> Coord {
        (self.row as int, self.col as int)
    }
}

impl Cell {
    /// The cell in row `row` and column `col`.
    pub fn new(row: i32, col: i32) -> (cell: Cell)
        ensures
            cell@ == (row as int, col as int),
    {
        Cell { row: row, col: col }
    }
}

impl Color {
    /// The other side.
    pub fn opposite(self) -> (other: Color)
        ensures
            other == opponent(self),
    {
        match self {
            Color::Black => Color::White,
            Color::White => Color::Black,
        }
    }
}

impl View for Board {
    type V = Position;

    closed spec fn view(&self) -> Position {
        Position::shown_by(self.color, rows(self.board))
    }
}

/// The rows of a grid of vectors.
pub open spec fn rows(grid: Vec<Vec<Option<Piece>>>) -> Seq<Seq<Option<Piece>>> {
    Seq::new(grid.len() as nat, |r: int| grid[r]@)
}

impl Board {
    /// The grid has eight rows of eight slots.
    pub closed spec fn shaped(&self) -> bool {
        &&& self.board.len() == 8
        &&& forall|r: int| 0 <= r < 8 ==> (#[trigger] self.board[r]).len() == 8
    }

    /// The grid is 8x8, every piece records the cell it stands on, and no
    /// side has two kings.
    pub open spec fn wf(&self) -> bool {
        self.shaped() && self@.wf()
    }

    /// Helper function to put the four symmetrical pieces on the board.
    fn symmetrical_pieces(
        black_i: i32,
        j: i32,
        board: &mut Vec<Vec<Option<Piece>>>,
        piece_type: PieceType,
    )
        requires
            0 <= black_i < 8,
            0 <= j < 8,
            old(board).len() == 8,
            forall|r: int| 0 <= r < 8 ==> (#[trigger] old(board)[r]).len() == 8,
        ensures
            final(board).len() == 8,
            forall|r: int| 0 <= r < 8 ==> (#[trigger] final(board)[r]).len() == 8,
            forall|r: int, c: int|
                0 <= r < 8 && 0 <= c < 8 ==> #[trigger] final(board)[r][c] == if (r == black_i || r
                    == 7 - black_i) && (c == j || c == 7 - j) {
                    Some(
                        Piece {
                            piece_type,
                            color: if r == black_i {
                                Color::Black
                            } else {
                                Color::White
                            },
                            cell: cell_of((r, c)),
                        },
                    )
                } else {
                    old(board)[r][c]
                },
    {
        board[black_i as usize][j as usize] = Some(
            Piece { piece_type: piece_type, color: Color::Black, cell: Cell::new(black_i, j) },
        );
        board[black_i as usize][7 - j as usize] = Some(
            Piece { piece_type: piece_type, color: Color::Black, cell: Cell::new(black_i, 7 - j) },
        );
        board[7 - black_i as usize][j as usize] = Some(
            Piece { piece_type: piece_type, color: Color::White, cell: Cell::new(7 - black_i, j) },
        );
        board[7 - black_i as usize][7 - j as usize] = Some(
            Piece {
                piece_type: piece_type,
                color: Color::White,
                cell: Cell::new(7 - black_i, 7 - j),
            },
        );
    }

    /// Initialize the board with starting positions, White to move.
    pub fn new() -> (fresh: Board)
        ensures
            fresh.wf(),
            fresh@ == Position::initial(),
    {
        let mut board: Vec<Vec<Option<Piece>>> = Vec::new();
        let mut r: usize = 0;
        while r < 8
            invariant
                r <= 8,
                board.len() == r,
                forall|i: int| 0 <= i < r ==> (#[trigger] board[i]).len() == 8,
                forall|i: int, j: int| 0 <= i < r && 0 <= j < 8 ==> #[trigger] board[i][j] is None,
            decreases 8 - r,
        {
            let mut row: Vec<Option<Piece>> = Vec::new();
            let mut c: usize = 0;
            while c < 8
                invariant
                    c <= 8,
                    row.len() == c,
                    forall|j: int| 0 <= j < c ==> #[trigger] row[j] is None,
                decreases 8 - c,
            {
                row.push(None);
                c += 1;
            }
            board.push(row);
            r += 1;
        }
        let mut j: usize = 0;
        while j < 8
            invariant
                j <= 8,
                board.len() == 8,
                forall|i: int| 0 <= i < 8 ==> (#[trigger] board[i]).len() == 8,
                forall|i: int, k: int|
                    0 <= i < 8 && 0 <= k < 8 ==> #[trigger] board[i][k] == if (i == 1 || i == 6)
                        && k < j {
                        Some(starting_piece((i, k)))
                    } else {
                        None
                    },
            decreases 8 - j,
        {
            board[1][j] = Some(
                Piece {
                    piece_type: PieceType::Pawn,
                    color: Color::Black,
                    cell: Cell::new(1, j as i32),
                },
            );
            board[6][j] = Some(
                Piece {
                    piece_type: PieceType::Pawn,
                    color: Color::White,
                    cell: Cell::new(6, j as i32),
                },
            );
            j += 1;
        }
        Board::symmetrical_pieces(0, 0, &mut board, PieceType::Rook);
        Board::symmetrical_pieces(0, 1, &mut board, PieceType::Knight);
        Board::symmetrical_pieces(0, 2, &mut board, PieceType::Bishop);
        board[0][3] = Some(
            Piece { piece_type: PieceType::Queen, color: Color::Black, cell: Cell::new(0, 3) },
        );
        board[7][3] = Some(
            Piece { piece_type: PieceType::Queen, color: Color::White, cell: Cell::new(7, 3) },
        );
        board[0][4] = Some(
            Piece { piece_type: PieceType::King, color: Color::Black, cell: Cell::new(0, 4) },
        );
        board[7][4] = Some(
            Piece { piece_type: PieceType::King, color: Color::White, cell: Cell::new(7, 4) },
        );
        let fresh = Board { color: Color::White, board: board };
        proof {
            assert forall|i: int, k: int| 0 <= i < 8 && 0 <= k < 8 implies #[trigger] fresh.board[i][k]
                == if i <= 1 || i >= 6 {
                Some(starting_piece((i, k)))
            } else {
                None
            } by {}
            assert(fresh@.squares =~= Position::initial().squares);
        }
        fresh
    }

    /// Helper function that checks if it is white's turn.
    pub fn white_turn(&self) -> (white: bool)
        ensures
            white == (self@.active == Color::White),
    {
        self.color == Color::White
    }

    /// The side whose turn it is.
    pub fn active_color(&self) -> (color: Color)
        ensures
            color == self@.active,
    {
        self.color
    }

    /// Helper function to check if a proposed cell is in the bounds of the board.
    pub fn inbounds(&self, cell: &Cell) -> (inside: bool)
        ensures
            inside == on_board(cell@),
    {
        cell.row < 8 && cell.row >= 0 && cell.col < 8 && cell.col >= 0
    }

    /// Get the piece associated with a given cell index; nothing stands on a
    /// cell outside the board.
    pub fn get_piece(&self, cell: &Cell) -> (piece: Option<Piece>)
        requires
            self.wf(),
        ensures
            piece == self@.at(cell@),
            piece matches Some(p) ==> p.cell == *cell,
    {
        if self.inbounds(cell) {
            self.board[cell.row as usize][cell.col as usize]
        } else {
            None
        }
    }

    /// Helper function to check if a cell of the board has no piece.
    pub(crate) fn is_empty(&self, cell: &Cell) -> (empty: bool)
        requires
            self.wf(),
            on_board(cell@),
        ensures
            empty == self@.vacant(cell@),
    {
        !self.get_piece(cell).is_some()
    }

    /// Helper function to check if `to` holds a piece of the other side than
    /// the piece on `from`.
    pub(crate) fn is_enemy(&self, from: &Cell, to: &Cell) -> (enemy: bool)
        requires
            self.wf(),
        ensures
            enemy == (self@.squares.contains_key(from@) && self@.hostile(
                to@,
                self@.squares[from@].color,
            )),
    {
        if let Some(from_piece) = self.get_piece(from) {
            if let Some(to_piece) = self.get_piece(to) {
                return to_piece.color != from_piece.color;
            }
        }
        false
    }

    /// Helper function to check if a cell holds a piece of the side to move.
    pub fn is_friendly_board(&self, cell: &Cell) -> (friendly: bool)
        requires
            self.wf(),
        ensures
            friendly == self@.holds(cell@, self@.active),
    {
        if let Some(piece) = self.get_piece(cell) {
            return piece.color == self.color;
        }
        false
    }

    /// Helper function to swap the current player.
    pub fn switch_color(&mut self)
        requires
            old(self).wf(),
        ensures
            final(self).wf(),
            final(self)@ == old(self)@.flipped(),
    {
        match self.color {
            Color::Black => self.color = Color::White,
            Color::White => self.color = Color::Black,
        }
        proof {
            assert(self@.squares =~= old(self)@.squares);
        }
    }

    /// Moves the piece on `from` to `to`, replacing what stood on `to`, and
    /// says whether a piece was moved. Legality is not examined and the side
    /// to move stays as it is.
    pub fn move_piece(&mut self, from: Cell, to: Cell) -> (moved: bool)
        requires
            old(self).wf(),
        ensures
            final(self).wf(),
            final(self)@ == old(self)@.after_move(from@, to@),
            moved == (on_board(from@) && on_board(to@) && old(self)@.squares.contains_key(from@)),
    {
        if !self.inbounds(&from) || !self.inbounds(&to) {
            return false;
        }
        if let Some(piece) = self.get_piece(&from) {
            let relocated = Piece { piece_type: piece.piece_type, color: piece.color, cell: to };
            self.board[from.row as usize][from.col as usize] = None;
            self.board[to.row as usize][to.col as usize] = Some(relocated);
            proof {
                assert(self@.squares =~= old(self)@.after_move(from@, to@).squares);
                lemma_move_keeps_order(old(self)@, from@, to@);
            }
            return true;
        }
        false
    }

    /// A copy of the grid, slot by slot.
    fn copy_grid(&self) -> (grid: Vec<Vec<Option<Piece>>>)
        requires
            self.shaped(),
        ensures
            rows(grid) == rows(self.board),
            grid.len() == 8,
            forall|r: int| 0 <= r < 8 ==> (#[trigger] grid[r])@ == self.board[r]@,
    {
        let mut grid: Vec<Vec<Option<Piece>>> = Vec::new();
        let mut r: usize = 0;
        while r < 8
            invariant
                self.shaped(),
                r <= 8,
                grid.len() == r,
                forall|i: int| 0 <= i < r ==> (#[trigger] grid[i])@ == self.board[i]@,
            decreases 8 - r,
        {
            let mut row: Vec<Option<Piece>> = Vec::new();
            let mut c: usize = 0;
            while c < 8
                invariant
                    self.shaped(),
                    r < 8,
                    c <= 8,
                    row.len() == c,
                    forall|j: int| 0 <= j < c ==> #[trigger] row[j] == self.board[r as int][j],
                decreases 8 - c,
            {
                row.push(self.board[r][c]);
                c += 1;
            }
            assert(row@ =~= self.board[r as int]@);
            grid.push(row);
            r += 1;
        }
        assert(rows(grid) =~= rows(self.board));
        grid
    }

    /// A copy of the board that shares nothing with this one.
    pub fn duplicate(&self) -> (copy: Board)
        requires
            self.wf(),
        ensures
            copy.wf(),
            copy@ == self@,
    {
        let copy = Board { color: self.color, board: self.copy_grid() };
        copy
    }

    /// A snapshot of the grid: eight rows of eight slots, each with the piece
    /// that stands there, if any.
    pub fn grid(&self) -> (grid: Vec<Vec<Option<Piece>>>)
        requires
            self.wf(),
        ensures
            rows(grid) == self@.picture(),
    {
        let grid = self.copy_grid();
        proof {
            let shown = rows(self.board);
            let picture = self@.picture();
            assert forall|r: int| 0 <= r < 8 implies #[trigger] shown[r] == picture[r] by {
                assert forall|c: int| 0 <= c < 8 implies #[trigger] shown[r][c] == picture[r][c] by {
                    assert(self@.at((r, c)) == self.board[r][c]);
                }
                assert(shown[r] =~= picture[r]);
            }
            assert(shown =~= picture);
        }
        grid
    }

    /// Builds the board that a grid shows, with `color` to move. The grid is
    /// refused unless it has eight rows of eight slots, every piece in it
    /// records the cell of its slot, and no side has two kings.
    pub fn from_grid(color: Color, grid: Vec<Vec<Option<Piece>>>) -> (board: Option<Board>)
        ensures
            match Position::restored(color, rows(grid)) {
                Some(pos) => board matches Some(b) && b.wf() && b@ == pos,
                None => board is None,
            },
    {
        let ghost shown = rows(grid);
        let ghost pos = Position::shown_by(color, shown);
        if grid.len() != 8 {
            return None;
        }
        let mut white_seen = false;
        let mut black_seen = false;
        let ghost mut white_at: Coord = (0, 0);
        let ghost mut black_at: Coord = (0, 0);
        let mut r: usize = 0;
        while r < 8
            invariant
                shown == rows(grid),
                pos == Position::shown_by(color, shown),
                grid.len() == 8,
                r <= 8,
                forall|i: int| 0 <= i < r ==> (#[trigger] shown[i]).len() == 8,
                forall|t: Coord|
                    on_board(t) && t.0 < r && #[trigger] pos.squares.contains_key(t)
                        ==> pos.squares[t].cell@ == t,
                forall|t: Coord|
                    t.0 < r && #[trigger] pos.holds_king(t, Color::White) ==> white_seen && t
                        == white_at,
                forall|t: Coord|
                    t.0 < r && #[trigger] pos.holds_king(t, Color::Black) ==> black_seen && t
                        == black_at,
                white_seen ==> pos.holds_king(white_at, Color::White) && white_at.0 < r,
                black_seen ==> pos.holds_king(black_at, Color::Black) && black_at.0 < r,
            decreases 8 - r,
        {
            assert(shown[r as int] == grid[r as int]@);
            if grid[r].len() != 8 {
                return None;
            }
            let mut c: usize = 0;
            while c < 8
                invariant
                    shown == rows(grid),
                    pos == Position::shown_by(color, shown),
                    grid.len() == 8,
                    r < 8,
                    c <= 8,
                    shown[r as int] == grid[r as int]@,
                    shown[r as int].len() == 8,
                    forall|i: int| 0 <= i < r ==> (#[trigger] shown[i]).len() == 8,
                    forall|t: Coord|
                        on_board(t) && (t.0 < r || (t.0 == r && t.1 < c))
                            && #[trigger] pos.squares.contains_key(t) ==> pos.squares[t].cell@
                            == t,
                    forall|t: Coord|
                        (t.0 < r || (t.0 == r && t.1 < c)) && #[trigger] pos.holds_king(
                            t,
                            Color::White,
                        ) ==> white_seen && t == white_at,
                    forall|t: Coord|
                        (t.0 < r || (t.0 == r && t.1 < c)) && #[trigger] pos.holds_king(
                            t,
                            Color::Black,
                        ) ==> black_seen && t == black_at,
                    white_seen ==> pos.holds_king(white_at, Color::White) && (white_at.0 < r || (
                    white_at.0 == r && white_at.1 < c)),
                    black_seen ==> pos.holds_king(black_at, Color::Black) && (black_at.0 < r || (
                    black_at.0 == r && black_at.1 < c)),
                decreases 8 - c,
            {
                let ghost here: Coord = (r as int, c as int);
                if let Some(piece) = grid[r][c] {
                    assert(pos.squares.contains_key(here) && pos.squares[here] == piece);
                    if piece.cell.row != r as i32 || piece.cell.col != c as i32 {
                        return None;
                    }
                    if piece.piece_type == PieceType::King {
                        match piece.color {
                            Color::White => {
                                if white_seen {
                                    proof {
                                        assert(pos.squares.contains_key(white_at)
                                            && pos.squares.contains_key(here));
                                    }
                                    return None;
                                }
                                white_seen = true;
                                proof {
                                    white_at = here;
                                }
                            },
                            Color::Black => {
                                if black_seen {
                                    proof {
                                        assert(pos.squares.contains_key(black_at)
                                            && pos.squares.contains_key(here));
                                    }
                                    return None;
                                }
                                black_seen = true;
                                proof {
                                    black_at = here;
                                }
                            },
                        }
                    }
                } else {
                    assert(!pos.squares.contains_key(here));
                }
                c += 1;
            }
            r += 1;
        }
        let board = Board { color: color, board: grid };
        proof {
            assert(forall|i: int| 0 <= i < 8 ==> (#[trigger] board.board[i])@ == shown[i]);
            assert forall|a: Coord, b: Coord|
                #![trigger pos.squares.contains_key(a), pos.squares.contains_key(b)]
                pos.squares.contains_key(a) && pos.squares.contains_key(b)
                    && pos.squares[a].piece_type == PieceType::King && pos.squares[b].piece_type
                    == PieceType::King && pos.squares[a].color == pos.squares[b].color implies a
                == b by {
                let side = pos.squares[a].color;
                assert(pos.holds_king(a, side) && pos.holds_king(b, side));
            }
        }
        Some(board)
    }
}

} // verus!
