//! The rules of movement, stated over a mathematical picture of the board.
//!
//! A `Position` is the side to move together with a map from coordinates to
//! the pieces standing there. Everything the executable board computes is
//! specified against the predicates of this module.

use crate::board::{Cell, Color, Piece, PieceType};
use vstd::prelude::*;

verus! {

/// A coordinate of the model: `(row, column)`.
pub type Coord = (int, int);

/// The coordinate lies on the 8x8 board.
pub open spec fn on_board(t: Coord) -> bool {
    0 <= t.0 < 8 && 0 <= t.1 < 8
}

/// The cell that names a coordinate of the board.
pub open spec fn cell_of(t: Coord) -> Cell {
    Cell { row: t.0 as i32, col: t.1 as i32 }
}

/// A direction given with machine integers, as a coordinate pair.
pub open spec fn heading(d: (i32, i32)) -> Coord {
    (d.0 as int, d.1 as int)
}

/// `x` moved by `k` steps towards the sign of `d`.
pub open spec fn advance(x: int, d: int, k: int) -> int {
    if d > 0 {
        x + k
    } else if d < 0 {
        x - k
    } else {
        x
    }
}

/// The coordinate reached from `from` after `k` steps in direction `d`.
pub open spec fn step(from: Coord, d: Coord, k: int) -> Coord {
    (advance(from.0, d.0, k), advance(from.1, d.1, k))
}

/// One of the four directions along a rank or a file.
pub open spec fn straight(d: Coord) -> bool {
    (d.0 == 0 && (d.1 == 1 || d.1 == -1)) || (d.1 == 0 && (d.0 == 1 || d.0 == -1))
}

/// One of the four diagonal directions.
pub open spec fn diagonal(d: Coord) -> bool {
    (d.0 == 1 || d.0 == -1) && (d.1 == 1 || d.1 == -1)
}

/// The other side.
pub open spec fn opponent(color: Color) -> Color {
    match color {
        Color::Black => Color::White,
        Color::White => Color::Black,
    }
}

/// The row change of a pawn's single step: Black walks towards higher rows.
pub open spec fn forward(color: Color) -> int {
    match color {
        Color::Black => 1,
        Color::White => -1,
    }
}

/// The row on which a side's pawns start.
pub open spec fn home_row(color: Color) -> int {
    match color {
        Color::Black => 1,
        Color::White => 6,
    }
}

/// The piece that starts on column `c` of a side's back row.
pub open spec fn back_rank(c: int) -> PieceType {
    if c == 0 || c == 7 {
        PieceType::Rook
    } else if c == 1 || c == 6 {
        PieceType::Knight
    } else if c == 2 || c == 5 {
        PieceType::Bishop
    } else if c == 3 {
        PieceType::Queen
    } else {
        PieceType::King
    }
}

/// The piece that stands on `t` when a game starts (for the four outer rows).
pub open spec fn starting_piece(t: Coord) -> Piece {
    Piece {
        piece_type: if t.0 == 1 || t.0 == 6 {
            PieceType::Pawn
        } else {
            back_rank(t.1)
        },
        color: if t.0 < 4 {
            Color::Black
        } else {
            Color::White
        },
        cell: cell_of(t),
    }
}

/// A grid of eight rows of eight slots.
pub open spec fn square_grid(grid: Seq<Seq<Option<Piece>>>) -> bool {
    grid.len() == 8 && forall|r: int| 0 <= r < 8 ==> (#[trigger] grid[r]).len() == 8
}

/// The side to move and the pieces on the board, by coordinate.
pub struct Position {
    pub active: Color,
    pub squares: Map<Coord, Piece>,
}

impl Position {
    /// The position from which every game starts: White to move.
    pub open spec fn initial() -> Position {
        Position {
            active: Color::White,
            squares: Map::new(
                |t: Coord| on_board(t) && (t.0 <= 1 || t.0 >= 6),
                |t: Coord| starting_piece(t),
            ),
        }
    }

    /// The position that a grid shows: the piece in row `r` and column `c`
    /// of the grid stands on `(r, c)`.
    pub open spec fn shown_by(active: Color, grid: Seq<Seq<Option<Piece>>>) -> Position {
        Position {
            active,
            squares: Map::new(
                |t: Coord| on_board(t) && grid[t.0][t.1] is Some,
                |t: Coord| grid[t.0][t.1]->0,
            ),
        }
    }

    /// Reading a grid back: the position it shows, if the grid is 8x8, every
    /// piece in it records the cell of its slot, and no side has two kings.
    pub open spec fn restored(active: Color, grid: Seq<Seq<Option<Piece>>>) -> Option<Position> {
        if square_grid(grid) && Position::shown_by(active, grid).wf() {
            Some(Position::shown_by(active, grid))
        } else {
            None
        }
    }

    /// The grid that shows the position, slot by slot.
    pub open spec fn picture(self) -> Seq<Seq<Option<Piece>>> {
        Seq::new(8, |r: int| Seq::new(8, |c: int| self.at((r, c))))
    }

    /// What stands on `t`, if anything.
    pub open spec fn at(self, t: Coord) -> Option<Piece> {
        if self.squares.contains_key(t) {
            Some(self.squares[t])
        } else {
            None
        }
    }

    /// A piece of `color` stands on `t`.
    pub open spec fn holds(self, t: Coord, color: Color) -> bool {
        self.squares.contains_key(t) && self.squares[t].color == color
    }

    /// The king of `color` stands on `t`.
    pub open spec fn holds_king(self, t: Coord, color: Color) -> bool {
        self.holds(t, color) && self.squares[t].piece_type == PieceType::King
    }

    /// Every piece stands on the board and records the coordinate it stands
    /// on, and no side has two kings.
    pub open spec fn wf(self) -> bool {
        &&& forall|t: Coord| #[trigger]
            self.squares.contains_key(t) ==> on_board(t) && self.squares[t].cell@ == t
        &&& forall|a: Coord, b: Coord|
            #![trigger self.squares.contains_key(a), self.squares.contains_key(b)]
            self.squares.contains_key(a) && self.squares.contains_key(b)
                && self.squares[a].piece_type == PieceType::King && self.squares[b].piece_type
                == PieceType::King && self.squares[a].color == self.squares[b].color ==> a == b
    }

    /// `t` is on the board and nothing stands there.
    pub open spec fn vacant(self, t: Coord) -> bool {
        on_board(t) && !self.squares.contains_key(t)
    }

    /// `t` holds a piece that `color` may capture.
    pub open spec fn hostile(self, t: Coord, color: Color) -> bool {
        on_board(t) && self.squares.contains_key(t) && self.squares[t].color != color
    }

    /// A piece of `color` may come to rest on `t`.
    pub open spec fn landable(self, t: Coord, color: Color) -> bool {
        self.vacant(t) || self.hostile(t, color)
    }

    /// The first `k - 1` squares from `from` in direction `d` are vacant.
    pub open spec fn open_run(self, from: Coord, d: Coord, k: int) -> bool {
        forall|j: int| 1 <= j < k ==> self.vacant(#[trigger] step(from, d, j))
    }

    /// A piece of `color` sliding from `from` in direction `d` reaches `to`:
    /// every square on the way is vacant and `to` is vacant or holds a piece
    /// of the other side.
    pub open spec fn slides(self, from: Coord, d: Coord, to: Coord, color: Color) -> bool {
        exists|k: int|
            1 <= k && to == #[trigger] step(from, d, k) && self.open_run(from, d, k)
                && self.landable(to, color)
    }

    pub open spec fn rook_reach(self, from: Coord, to: Coord, color: Color) -> bool {
        exists|d: Coord| straight(d) && #[trigger] self.slides(from, d, to, color)
    }

    pub open spec fn bishop_reach(self, from: Coord, to: Coord, color: Color) -> bool {
        exists|d: Coord| diagonal(d) && #[trigger] self.slides(from, d, to, color)
    }

    pub open spec fn queen_reach(self, from: Coord, to: Coord, color: Color) -> bool {
        exists|d: Coord| (straight(d) || diagonal(d)) && #[trigger] self.slides(from, d, to, color)
    }

    /// One step in any of the eight directions.
    pub open spec fn king_reach(self, from: Coord, to: Coord, color: Color) -> bool {
        &&& to != from
        &&& -1 <= to.0 - from.0 <= 1
        &&& -1 <= to.1 - from.1 <= 1
        &&& self.landable(to, color)
    }

    /// Two squares one way and one square the other.
    pub open spec fn knight_reach(self, from: Coord, to: Coord, color: Color) -> bool {
        let dr = to.0 - from.0;
        let dc = to.1 - from.1;
        &&& ((dr == 1 || dr == -1) && (dc == 2 || dc == -2)) || ((dr == 2 || dr == -2) && (dc
            == 1 || dc == -1))
        &&& self.landable(to, color)
    }

    /// One step forward onto a vacant square, two steps from the home row
    /// onto a vacant square, or one step diagonally forward as a capture.
    pub open spec fn pawn_reach(self, from: Coord, to: Coord, color: Color) -> bool {
        let f = forward(color);
        ||| to == (from.0 + f, from.1) && self.vacant(to)
        ||| to == (from.0 + 2 * f, from.1) && from.0 == home_row(color) && self.vacant(to)
        ||| to.0 == from.0 + f && (to.1 == from.1 + 1 || to.1 == from.1 - 1) && self.hostile(
            to,
            color,
        )
    }

    /// The movement pattern of `piece`, standing on `from`, takes it to `to`.
    pub open spec fn pattern(self, piece: Piece, from: Coord, to: Coord) -> bool {
        match piece.piece_type {
            PieceType::Bishop => self.bishop_reach(from, to, piece.color),
            PieceType::King => self.king_reach(from, to, piece.color),
            PieceType::Knight => self.knight_reach(from, to, piece.color),
            PieceType::Pawn => self.pawn_reach(from, to, piece.color),
            PieceType::Rook => self.rook_reach(from, to, piece.color),
            PieceType::Queen => self.queen_reach(from, to, piece.color),
        }
    }

    /// Pseudo-legal reach: a piece stands on `from` and its movement pattern
    /// takes it to `to`. The safety of its own king is not considered.
    pub open spec fn reaches(self, from: Coord, to: Coord) -> bool {
        on_board(from) && self.squares.contains_key(from) && self.pattern(
            self.squares[from],
            from,
            to,
        )
    }

    /// The position after the piece on `from` has been taken to `to`,
    /// replacing whatever stood there. Nothing changes when `from` holds no
    /// piece or either coordinate is off the board. The side to move stays.
    pub open spec fn after_move(self, from: Coord, to: Coord) -> Position {
        if on_board(from) && on_board(to) && self.squares.contains_key(from) {
            let piece = self.squares[from];
            Position {
                active: self.active,
                squares: self.squares.remove(from).insert(
                    to,
                    Piece { piece_type: piece.piece_type, color: piece.color, cell: cell_of(to) },
                ),
            }
        } else {
            self
        }
    }

    /// The same pieces with the other side to move.
    pub open spec fn flipped(self) -> Position {
        Position { active: opponent(self.active), squares: self.squares }
    }

    /// Some piece of the other side reaches the square of `color`'s king.
    pub open spec fn in_check(self, color: Color) -> bool {
        exists|from: Coord, to: Coord|
            self.holds(from, opponent(color)) && self.holds_king(to, color)
                && #[trigger] self.reaches(from, to)
    }

    /// A legal move: the piece on `from` reaches `to`, and afterwards the king
    /// of its own side is not attacked.
    pub open spec fn legal(self, from: Coord, to: Coord) -> bool {
        self.reaches(from, to) && !self.after_move(from, to).in_check(self.squares[from].color)
    }

    /// `color` is in check and none of its pieces has a legal move.
    pub open spec fn checkmated(self, color: Color) -> bool {
        &&& self.in_check(color)
        &&& forall|from: Coord, to: Coord|
            self.holds(from, color) ==> !#[trigger] self.legal(from, to)
    }
}

/// Moving a piece keeps every piece on the cell it records and gives no
/// side a second king.
pub proof fn lemma_move_keeps_order(before: Position, from: Coord, to: Coord)
    requires
        before.wf(),
    ensures
        before.after_move(from, to).wf(),
{
    let after = before.after_move(from, to);
    if on_board(from) && on_board(to) && before.squares.contains_key(from) {
        assert forall|a: Coord, b: Coord|
            after.squares.contains_key(a) && after.squares.contains_key(b)
                && after.squares[a].piece_type == PieceType::King && after.squares[b].piece_type
                == PieceType::King && after.squares[a].color == after.squares[b].color implies a
            == b by {
            if a != b {
                let x = if a == to { from } else { a };
                let y = if b == to { from } else { b };
                assert(before.squares.contains_key(x) && before.squares.contains_key(y));
            }
        }
    }
}

/// Whatever a piece reaches lies on the board, away from where it stands.
pub proof fn lemma_reach_on_board(pos: Position, from: Coord, to: Coord)
    requires
        pos.reaches(from, to),
    ensures
        on_board(to),
        to != from,
{
    let piece = pos.squares[from];
    if piece.piece_type == PieceType::Rook || piece.piece_type == PieceType::Bishop
        || piece.piece_type == PieceType::Queen {
        let d = choose|d: Coord|
            (straight(d) || diagonal(d)) && #[trigger] pos.slides(from, d, to, piece.color);
        let k = choose|k: int|
            1 <= k && to == #[trigger] step(from, d, k) && pos.open_run(from, d, k)
                && pos.landable(to, piece.color);
    }
}

/// A piece never reaches a square that holds a piece of its own side.
pub proof fn lemma_reach_hits_others(pos: Position, from: Coord, to: Coord)
    requires
        pos.reaches(from, to),
        pos.squares.contains_key(to),
    ensures
        pos.squares[to].color != pos.squares[from].color,
{
    let piece = pos.squares[from];
    if piece.piece_type == PieceType::Rook || piece.piece_type == PieceType::Bishop
        || piece.piece_type == PieceType::Queen {
        let d = choose|d: Coord|
            (straight(d) || diagonal(d)) && #[trigger] pos.slides(from, d, to, piece.color);
        let k = choose|k: int|
            1 <= k && to == #[trigger] step(from, d, k) && pos.open_run(from, d, k)
                && pos.landable(to, piece.color);
    }
}

/// Sliding depends on the pieces alone, not on the side to move.
proof fn lemma_slides_alike(p: Position, q: Position, from: Coord, d: Coord, to: Coord, color: Color)
    requires
        p.squares == q.squares,
        p.slides(from, d, to, color),
    ensures
        q.slides(from, d, to, color),
{
    let k = choose|k: int|
        1 <= k && to == #[trigger] step(from, d, k) && p.open_run(from, d, k) && p.landable(
            to,
            color,
        );
    assert forall|j: int| 1 <= j < k implies q.vacant(#[trigger] step(from, d, j)) by {
        assert(p.vacant(step(from, d, j)));
    }
    assert(q.open_run(from, d, k));
}

/// What a piece reaches depends on the pieces alone, not on the side to move.
pub proof fn lemma_reach_alike(p: Position, q: Position, from: Coord, to: Coord)
    requires
        p.squares == q.squares,
    ensures
        p.reaches(from, to) == q.reaches(from, to),
{
    if p.squares.contains_key(from) {
        let piece = p.squares[from];
        let color = piece.color;
        if piece.piece_type == PieceType::Rook || piece.piece_type == PieceType::Bishop
            || piece.piece_type == PieceType::Queen {
            if p.reaches(from, to) {
                let d = choose|d: Coord|
                    (straight(d) || diagonal(d)) && #[trigger] p.slides(from, d, to, color);
                lemma_slides_alike(p, q, from, d, to, color);
            }
            if q.reaches(from, to) {
                let d = choose|d: Coord|
                    (straight(d) || diagonal(d)) && #[trigger] q.slides(from, d, to, color);
                lemma_slides_alike(q, p, from, d, to, color);
            }
        }
    }
}

/// Whether a side is in check depends on the pieces alone, not on the side
/// to move.
pub proof fn lemma_check_alike(p: Position, q: Position, color: Color)
    requires
        p.squares == q.squares,
    ensures
        p.in_check(color) == q.in_check(color),
{
    if p.in_check(color) {
        let (from, to) = choose|from: Coord, to: Coord|
            p.holds(from, opponent(color)) && p.holds_king(to, color) && #[trigger] p.reaches(
                from,
                to,
            );
        lemma_reach_alike(p, q, from, to);
    }
    if q.in_check(color) {
        let (from, to) = choose|from: Coord, to: Coord|
            q.holds(from, opponent(color)) && q.holds_king(to, color) && #[trigger] q.reaches(
                from,
                to,
            );
        lemma_reach_alike(p, q, from, to);
    }
}

/// Whether a move is legal depends on the pieces alone, not on the side to
/// move.
pub proof fn lemma_legal_alike(p: Position, q: Position, from: Coord, to: Coord)
    requires
        p.squares == q.squares,
    ensures
        p.legal(from, to) == q.legal(from, to),
{
    lemma_reach_alike(p, q, from, to);
    lemma_check_alike(p.after_move(from, to), q.after_move(from, to), p.squares[from].color);
}

/// Whether a side is checkmated depends on the pieces alone, not on the
/// side to move.
pub proof fn lemma_mate_alike(p: Position, q: Position, color: Color)
    requires
        p.squares == q.squares,
    ensures
        p.checkmated(color) == q.checkmated(color),
{
    lemma_check_alike(p, q, color);
    assert forall|from: Coord, to: Coord| #[trigger] p.legal(from, to) == q.legal(from, to) by {
        lemma_legal_alike(p, q, from, to);
    }
    if p.checkmated(color) {
        assert forall|from: Coord, to: Coord| q.holds(from, color) implies !#[trigger] q.legal(
            from,
            to,
        ) by {
            assert(p.legal(from, to) == q.legal(from, to));
        }
    }
    if q.checkmated(color) {
        assert forall|from: Coord, to: Coord| p.holds(from, color) implies !#[trigger] p.legal(
            from,
            to,
        ) by {
            assert(p.legal(from, to) == q.legal(from, to));
        }
    }
}

/// At the start of a game Black is not in check: every white piece that
/// slides is shut in behind the white pawns, and no other white piece gets
/// anywhere near the black king.
pub proof fn lemma_initial_quiet()
    ensures
        Position::initial().wf(),
        !Position::initial().in_check(Color::Black),
{
    let pos = Position::initial();
    if pos.in_check(Color::Black) {
        let (from, to) = choose|from: Coord, to: Coord|
            pos.holds(from, Color::White) && pos.holds_king(to, Color::Black)
                && #[trigger] pos.reaches(from, to);
        let piece = pos.squares[from];
        assert(to.0 == 0);
        assert(from.0 >= 6);
        if piece.piece_type == PieceType::Rook || piece.piece_type == PieceType::Bishop
            || piece.piece_type == PieceType::Queen {
            let d = choose|d: Coord|
                (straight(d) || diagonal(d)) && #[trigger] pos.slides(
                    from,
                    d,
                    to,
                    Color::White,
                );
            let k = choose|k: int|
                1 <= k && to == #[trigger] step(from, d, k) && pos.open_run(from, d, k)
                    && pos.landable(to, Color::White);
            assert(from.0 == 7);
            assert(k == 7);
            let next = step(from, d, 1);
            assert(pos.vacant(next));
            assert(next.0 == 6);
        }
    }
}

} // verus!
