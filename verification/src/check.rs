//! Check, legal moves and checkmate.
//!
//! Whether a king is attacked is decided from the movement patterns alone.
//! Legal moves are the pattern moves after which the mover's own king is not
//! attacked; they are found by trying each move on a copy of the board.

use crate::board::{Board, Cell, Color, PieceType};
use crate::moves::lemma_push_fresh;
use crate::rules::{cell_of, lemma_check_alike, lemma_mate_alike, opponent, Coord, Position};
use vstd::prelude::*;

verus! {

/// `a` comes before `b` when the board is read row by row.
pub open spec fn precedes(a: Cell, b: Cell) -> bool {
    a.row < b.row || (a.row == b.row && a.col < b.col)
}

/// One of the first `n` cells of `cells` holds the king of `color`.
pub open spec fn king_among(pos: Position, cells: Seq<Cell>, n: int, color: Color) -> bool {
    exists|i: int| 0 <= i < n && pos.holds_king(#[trigger] cells[i]@, color)
}

/// One of the first `n` cells of `from` holds a piece that reaches the king
/// of `color`.
pub open spec fn attack_among(pos: Position, from: Seq<Cell>, n: int, color: Color) -> bool {
    exists|i: int, to: Coord|
        0 <= i < n && pos.holds_king(to, color) && #[trigger] pos.reaches(from[i]@, to)
}

/// One of the first `n` cells of `from` holds a piece with a legal move.
pub open spec fn escape_among(pos: Position, from: Seq<Cell>, n: int) -> bool {
    exists|i: int, to: Coord| 0 <= i < n && #[trigger] pos.legal(from[i]@, to)
}

impl Board {
    /// The cells that hold a piece of `color`, each once, row by row and
    /// within a row by column.
    pub fn pieces_of(&self, color: Color) -> (cells: Vec<Cell>)
        requires
            self.wf(),
        ensures
            cells@.no_duplicates(),
            forall|t: Cell| cells@.contains(t) <==> self@.holds(t@, color),
            forall|i: int, j: int| 0 <= i < j < cells.len() ==> precedes(cells[i], cells[j]),
    {
        let mut cells: Vec<Cell> = Vec::new();
        let mut row: i32 = 0;
        while row < 8
            invariant
                self.wf(),
                0 <= row <= 8,
                cells@.no_duplicates(),
                forall|t: Cell| cells@.contains(t) <==> self@.holds(t@, color) && t.row < row,
                forall|i: int, j: int| 0 <= i < j < cells.len() ==> precedes(cells[i], cells[j]),
            decreases 8 - row,
        {
            let mut col: i32 = 0;
            while col < 8
                invariant
                    self.wf(),
                    0 <= row < 8,
                    0 <= col <= 8,
                    cells@.no_duplicates(),
                    forall|t: Cell|
                        cells@.contains(t) <==> self@.holds(t@, color) && (t.row < row || (t.row
                            == row && t.col < col)),
                    forall|i: int, j: int|
                        0 <= i < j < cells.len() ==> precedes(cells[i], cells[j]),
                decreases 8 - col,
            {
                let here = Cell { row: row, col: col };
                let ghost before = cells@;
                let mut mine = false;
                if let Some(piece) = self.get_piece(&here) {
                    if piece.color == color {
                        mine = true;
                        proof {
                            lemma_push_fresh(before, here);
                            assert forall|i: int| 0 <= i < before.len() implies precedes(
                                before[i],
                                here,
                            ) by {
                                assert(before.contains(before[i]));
                            }
                        }
                        cells.push(here);
                    }
                }
                proof {
                    assert forall|t: Cell|
                        cells@.contains(t) <==> self@.holds(t@, color) && (t.row < row || (t.row
                            == row && t.col < col + 1)) by {
                        assert(cells@.contains(t) <==> before.contains(t) || (mine && t == here));
                    }
                }
                col += 1;
            }
            row += 1;
        }
        cells
    }

    /// Helper function to return cells of all friendly pieces: those of the
    /// side to move.
    pub(crate) fn friendly_pieces(&self) -> (cells: Vec<Cell>)
        requires
            self.wf(),
        ensures
            cells@.no_duplicates(),
            forall|t: Cell| cells@.contains(t) <==> self@.holds(t@, self@.active),
    {
        self.pieces_of(self.active_color())
    }

    /// Helper function to return cells of all enemy pieces: those of the side
    /// that is not to move.
    pub(crate) fn enemy_pieces(&self) -> (cells: Vec<Cell>)
        requires
            self.wf(),
        ensures
            cells@.no_duplicates(),
            forall|t: Cell| cells@.contains(t) <==> self@.holds(t@, opponent(self@.active)),
    {
        self.pieces_of(self.active_color().opposite())
    }

    /// Helper function that checks if a list of potential moves contains the
    /// enemy king: the king of the side that is not to move.
    pub(crate) fn contains_enemy_king(&self, cells: Vec<Cell>) -> (found: bool)
        requires
            self.wf(),
        ensures
            found == king_among(self@, cells@, cells.len() as int, opponent(self@.active)),
    {
        let enemy = self.active_color().opposite();
        let mut i: usize = 0;
        while i < cells.len()
            invariant
                self.wf(),
                enemy == opponent(self@.active),
                i <= cells.len(),
                !king_among(self@, cells@, i as int, enemy),
            decreases cells.len() - i,
        {
            if let Some(piece) = self.get_piece(&cells[i]) {
                if piece.piece_type == PieceType::King && piece.color == enemy {
                    proof {
                        assert(self@.holds_king(cells@[i as int]@, enemy));
                    }
                    return true;
                }
            }
            proof {
                if king_among(self@, cells@, i as int + 1, enemy) {
                    let n = choose|n: int|
                        0 <= n < i + 1 && self@.holds_king(#[trigger] cells@[n]@, enemy);
                    if n < i {
                        assert(king_among(self@, cells@, i as int, enemy));
                    }
                }
            }
            i += 1;
        }
        false
    }

    /// Helper function that checks for check, i.e. if the enemy king is in
    /// danger: whether some piece of the side to move reaches, by its
    /// movement pattern, the cell of the king of the other side.
    pub fn check(&self) -> (attacked: bool)
        requires
            self.wf(),
        ensures
            attacked == self@.in_check(opponent(self@.active)),
    {
        let ghost enemy = opponent(self@.active);
        let attackers = self.friendly_pieces();
        let mut i: usize = 0;
        while i < attackers.len()
            invariant
                self.wf(),
                enemy == opponent(self@.active),
                i <= attackers.len(),
                forall|t: Cell| attackers@.contains(t) <==> self@.holds(t@, self@.active),
                !attack_among(self@, attackers@, i as int, enemy),
            decreases attackers.len() - i,
        {
            let from = attackers[i];
            let moves = self.potential_moves(&from);
            let ghost reached = moves@;
            let found = self.contains_enemy_king(moves);
            proof {
                assert(attackers@.contains(from));
                if found {
                    let n = choose|n: int|
                        0 <= n < reached.len() && self@.holds_king(#[trigger] reached[n]@, enemy);
                    assert(reached.contains(reached[n]));
                    assert(self@.reaches(from@, reached[n]@));
                } else {
                    if attack_among(self@, attackers@, i as int + 1, enemy) {
                        let (n, to) = choose|n: int, to: Coord|
                            0 <= n < i + 1 && self@.holds_king(to, enemy) && #[trigger] self@.reaches(
                                attackers@[n]@,
                                to,
                            );
                        if n < i {
                            assert(attack_among(self@, attackers@, i as int, enemy));
                        } else {
                            assert(cell_of(to)@ == to);
                            assert(reached.contains(cell_of(to)));
                            let m = choose|m: int| 0 <= m < reached.len() && reached[m] == cell_of(to);
                            assert(self@.holds_king(reached[m]@, enemy));
                        }
                    }
                }
            }
            if found {
                return true;
            }
            i += 1;
        }
        proof {
            if self@.in_check(enemy) {
                let (from, to) = choose|from: Coord, to: Coord|
                    self@.holds(from, opponent(enemy)) && self@.holds_king(to, enemy)
                        && #[trigger] self@.reaches(from, to);
                assert(cell_of(from)@ == from);
                assert(attackers@.contains(cell_of(from)));
                let n = choose|n: int| 0 <= n < attackers.len() && attackers@[n] == cell_of(from);
                assert(self@.reaches(attackers@[n]@, to));
            }
        }
        false
    }

    /// Whether `color` is in check: some piece of the other side reaches the
    /// cell of `color`'s king by its movement pattern. Whose turn it is does
    /// not matter.
    pub fn is_in_check(&self, color: Color) -> (attacked: bool)
        requires
            self.wf(),
        ensures
            attacked == self@.in_check(color),
    {
        if self.active_color() == color {
            let mut turned = self.duplicate();
            turned.switch_color();
            proof {
                lemma_check_alike(self@, turned@, color);
            }
            turned.check()
        } else {
            self.check()
        }
    }

    /// Helper function to check if a move would place the current player's
    /// king in danger. Makes the move on a copy of the board and looks there
    /// whether the king of the side to move is attacked.
    pub fn self_check(&self, from: Cell, to: Cell) -> (exposed: bool)
        requires
            self.wf(),
        ensures
            exposed == self@.after_move(from@, to@).in_check(self@.active),
    {
        let mut new_board = self.duplicate();
        new_board.move_piece(from, to);
        new_board.is_in_check(self.active_color())
    }

    /// The legal moves of the piece on `cell`: the cells it reaches by its
    /// movement pattern such that, after the move, the king of its own side
    /// is not attacked. Each cell is listed once.
    pub fn legal_moves(&self, cell: &Cell) -> (moves: Vec<Cell>)
        requires
            self.wf(),
        ensures
            moves@.no_duplicates(),
            forall|t: Cell| moves@.contains(t) <==> self@.legal(cell@, t@),
    {
        let mut moves: Vec<Cell> = Vec::new();
        if let Some(piece) = self.get_piece(cell) {
            let candidates = self.potential_moves(cell);
            let mut i: usize = 0;
            while i < candidates.len()
                invariant
                    self.wf(),
                    self@.squares.contains_key(cell@),
                    piece == self@.squares[cell@],
                    i <= candidates.len(),
                    candidates@.no_duplicates(),
                    forall|t: Cell| candidates@.contains(t) <==> self@.reaches(cell@, t@),
                    moves@.no_duplicates(),
                    forall|t: Cell|
                        moves@.contains(t) <==> self@.legal(cell@, t@) && exists|n: int|
                            0 <= n < i && candidates@[n] == t,
                decreases candidates.len() - i,
            {
                let to = candidates[i];
                let mut trial = self.duplicate();
                trial.move_piece(*cell, to);
                let exposed = trial.is_in_check(piece.color);
                let ghost before = moves@;
                if !exposed {
                    proof {
                        if before.contains(to) {
                            let n = choose|n: int| 0 <= n < i && candidates@[n] == to;
                            assert(candidates@[n] == candidates@[i as int]);
                        }
                        lemma_push_fresh(before, to);
                    }
                    moves.push(to);
                }
                proof {
                    assert(candidates@.contains(to));
                    assert forall|t: Cell|
                        moves@.contains(t) <==> self@.legal(cell@, t@) && exists|n: int|
                            0 <= n < i + 1 && candidates@[n] == t by {
                        assert(moves@.contains(t) <==> before.contains(t) || (!exposed && t == to));
                        if before.contains(t) {
                            let n = choose|n: int| 0 <= n < i && candidates@[n] == t;
                            assert(0 <= n < i + 1 && candidates@[n] == t);
                        }
                        if !exposed && t == to {
                            assert(candidates@[i as int] == t);
                        }
                        if self@.legal(cell@, t@) && exists|n: int|
                            0 <= n < i + 1 && candidates@[n] == t {
                            let n = choose|n: int| 0 <= n < i + 1 && candidates@[n] == t;
                            if n < i {
                                assert(before.contains(t));
                            }
                        }
                    }
                }
                i += 1;
            }
            proof {
                assert forall|t: Cell| moves@.contains(t) <==> self@.legal(cell@, t@) by {
                    if self@.legal(cell@, t@) {
                        assert(candidates@.contains(t));
                        let n = choose|n: int| 0 <= n < candidates.len() && candidates@[n] == t;
                        assert(0 <= n < i && candidates@[n] == t);
                    }
                }
            }
        }
        moves
    }

    /// Whether the move of the piece on `from` to `to` is legal.
    pub fn is_legal(&self, from: &Cell, to: &Cell) -> (legal: bool)
        requires
            self.wf(),
        ensures
            legal == self@.legal(from@, to@),
    {
        let moves = self.legal_moves(from);
        let mut i: usize = 0;
        while i < moves.len()
            invariant
                i <= moves.len(),
                forall|t: Cell| moves@.contains(t) <==> self@.legal(from@, t@),
                forall|n: int| 0 <= n < i ==> moves@[n] != *to,
            decreases moves.len() - i,
        {
            if moves[i] == *to {
                proof {
                    assert(moves@.contains(moves@[i as int]));
                }
                return true;
            }
            i += 1;
        }
        proof {
            if moves@.contains(*to) {
                let n = choose|n: int| 0 <= n < moves.len() && moves@[n] == *to;
                assert(false);
            }
        }
        false
    }

    /// Helper function that checks for checkmate of the enemy: the side that
    /// is not to move is in check, and none of its pieces has a legal move.
    pub fn checkmate(&self) -> (mated: bool)
        requires
            self.wf(),
        ensures
            mated == self@.checkmated(opponent(self@.active)),
    {
        let ghost enemy = opponent(self@.active);
        if !self.check() {
            return false;
        }
        let defenders = self.enemy_pieces();
        let mut i: usize = 0;
        while i < defenders.len()
            invariant
                self.wf(),
                enemy == opponent(self@.active),
                self@.in_check(enemy),
                i <= defenders.len(),
                forall|t: Cell| defenders@.contains(t) <==> self@.holds(t@, enemy),
                !escape_among(self@, defenders@, i as int),
            decreases defenders.len() - i,
        {
            let from = defenders[i];
            let moves = self.legal_moves(&from);
            proof {
                assert(defenders@.contains(from));
            }
            if moves.len() > 0 {
                proof {
                    assert(moves@.contains(moves@[0]));
                    assert(self@.legal(from@, moves@[0]@));
                    assert(self@.holds(from@, enemy));
                }
                return false;
            }
            proof {
                if escape_among(self@, defenders@, i as int + 1) {
                    let (n, to) = choose|n: int, to: Coord|
                        0 <= n < i + 1 && #[trigger] self@.legal(defenders@[n]@, to);
                    if n < i {
                        assert(escape_among(self@, defenders@, i as int));
                    } else {
                        assert(cell_of(to)@ == to);
                        assert(moves@.contains(cell_of(to)));
                    }
                }
            }
            i += 1;
        }
        proof {
            assert forall|from: Coord, to: Coord| self@.holds(from, enemy) implies !#[trigger] self@.legal(
                from,
                to,
            ) by {
                if self@.legal(from, to) {
                    assert(cell_of(from)@ == from);
                    assert(defenders@.contains(cell_of(from)));
                    let n = choose|n: int|
                        0 <= n < defenders.len() && defenders@[n] == cell_of(from);
                    assert(self@.legal(defenders@[n]@, to));
                    assert(escape_among(self@, defenders@, i as int));
                }
            }
        }
        true
    }

    /// Whether `color` is checkmated: it is in check and none of its pieces
    /// has a legal move. Whose turn it is does not matter.
    pub fn is_checkmate(&self, color: Color) -> (mated: bool)
        requires
            self.wf(),
        ensures
            mated == self@.checkmated(color),
    {
        if self.active_color() == color {
            let mut turned = self.duplicate();
            turned.switch_color();
            proof {
                lemma_mate_alike(self@, turned@, color);
            }
            turned.checkmate()
        } else {
            self.checkmate()
        }
    }
}

} // verus!
