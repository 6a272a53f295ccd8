//! Move generation: the cells that the piece on a cell can go to by its
//! movement pattern, without regard to the safety of its own king.

use crate::board::{Board, Cell, Color, PieceType};
use crate::rules::{diagonal, heading, on_board, step, straight, Coord, Position};
use vstd::prelude::*;

verus! {

/// One of the eight directions in which a piece can slide.
pub open spec fn unit(d: Coord) -> bool {
    straight(d) || diagonal(d)
}

/// `to` lies fewer than `k` steps from `from` in direction `d`.
pub open spec fn within(from: Coord, d: Coord, k: int, to: Coord) -> bool {
    exists|j: int| 1 <= j < k && to == #[trigger] step(from, d, j)
}

/// A piece of `color` on `from` slides to `to` along one of the first `n`
/// directions of `dirs`.
pub open spec fn slides_any(
    pos: Position,
    from: Coord,
    dirs: Seq<(i32, i32)>,
    n: int,
    to: Coord,
    color: Color,
) -> bool {
    exists|i: int| 0 <= i < n && #[trigger] pos.slides(from, heading(dirs[i]), to, color)
}

/// `to` is `from` displaced by `d`.
pub open spec fn displaced(from: Coord, d: (i32, i32), to: Coord) -> bool {
    to == (from.0 + d.0, from.1 + d.1)
}

/// `to` is `from` displaced by one of the first `n` offsets of `dirs`.
pub open spec fn hops_any(from: Coord, dirs: Seq<(i32, i32)>, n: int, to: Coord) -> bool {
    exists|i: int| 0 <= i < n && #[trigger] displaced(from, dirs[i], to)
}

/// Two rays from one square that meet go the same way for the same number
/// of steps.
proof fn lemma_rays_part(from: Coord, d1: Coord, k1: int, d2: Coord, k2: int)
    requires
        unit(d1),
        unit(d2),
        k1 >= 1,
        k2 >= 1,
        step(from, d1, k1) == step(from, d2, k2),
    ensures
        d1 == d2,
        k1 == k2,
{
}

/// Pushing a cell that a duplicate-free list lacks keeps the list free of
/// duplicates and adds just that cell.
pub(crate) proof fn lemma_push_fresh(moves: Seq<Cell>, c: Cell)
    requires
        moves.no_duplicates(),
        !moves.contains(c),
    ensures
        moves.push(c).no_duplicates(),
        forall|t: Cell| #[trigger] moves.push(c).contains(t) <==> moves.contains(t) || t == c,
{
    let pushed = moves.push(c);
    assert forall|t: Cell| pushed.contains(t) <==> moves.contains(t) || t == c by {
        if moves.contains(t) {
            let n = choose|n: int| 0 <= n < moves.len() && moves[n] == t;
            assert(pushed[n] == t);
        }
        if t == c {
            assert(pushed[moves.len() as int] == t);
        }
    }
}

/// The rook's table lists the straight directions.
proof fn lemma_rook_table(
    pos: Position,
    from: Coord,
    to: Coord,
    color: Color,
    dirs: Seq<(i32, i32)>,
)
    requires
        dirs == seq![(0i32, 1i32), (1i32, 0i32), (-1i32, 0i32), (0i32, -1i32)],
    ensures
        slides_any(pos, from, dirs, 4, to, color) <==> pos.rook_reach(from, to, color),
{
    assert(dirs[0] == (0i32, 1i32) && dirs[1] == (1i32, 0i32) && dirs[2] == (-1i32, 0i32) && dirs[3]
        == (0i32, -1i32));
    if slides_any(pos, from, dirs, 4, to, color) {
        let i = choose|i: int| 0 <= i < 4 && #[trigger] pos.slides(from, heading(dirs[i]), to, color);
        assert(straight(heading(dirs[i])));
    }
    if pos.rook_reach(from, to, color) {
        let d = choose|d: Coord| straight(d) && #[trigger] pos.slides(from, d, to, color);
        let i: int = if d == (0int, 1int) {
            0
        } else if d == (1int, 0int) {
            1
        } else if d == (-1int, 0int) {
            2
        } else {
            3
        };
        assert(heading(dirs[i]) == d);
    }
}

/// The bishop's table lists the diagonal directions.
proof fn lemma_bishop_table(
    pos: Position,
    from: Coord,
    to: Coord,
    color: Color,
    dirs: Seq<(i32, i32)>,
)
    requires
        dirs == seq![(1i32, 1i32), (1i32, -1i32), (-1i32, 1i32), (-1i32, -1i32)],
    ensures
        slides_any(pos, from, dirs, 4, to, color) <==> pos.bishop_reach(from, to, color),
{
    assert(dirs[0] == (1i32, 1i32) && dirs[1] == (1i32, -1i32) && dirs[2] == (-1i32, 1i32)
        && dirs[3] == (-1i32, -1i32));
    if slides_any(pos, from, dirs, 4, to, color) {
        let i = choose|i: int| 0 <= i < 4 && #[trigger] pos.slides(from, heading(dirs[i]), to, color);
        assert(diagonal(heading(dirs[i])));
    }
    if pos.bishop_reach(from, to, color) {
        let d = choose|d: Coord| diagonal(d) && #[trigger] pos.slides(from, d, to, color);
        let i: int = if d == (1int, 1int) {
            0
        } else if d == (1int, -1int) {
            1
        } else if d == (-1int, 1int) {
            2
        } else {
            3
        };
        assert(heading(dirs[i]) == d);
    }
}

/// The queen's table lists all eight directions.
proof fn lemma_queen_table(
    pos: Position,
    from: Coord,
    to: Coord,
    color: Color,
    dirs: Seq<(i32, i32)>,
)
    requires
        dirs == seq![
            (0i32, 1i32),
            (1i32, 0i32),
            (-1i32, 0i32),
            (0i32, -1i32),
            (1i32, 1i32),
            (1i32, -1i32),
            (-1i32, 1i32),
            (-1i32, -1i32),
        ],
    ensures
        slides_any(pos, from, dirs, 8, to, color) <==> pos.queen_reach(from, to, color),
{
    assert(dirs[0] == (0i32, 1i32) && dirs[1] == (1i32, 0i32) && dirs[2] == (-1i32, 0i32) && dirs[3]
        == (0i32, -1i32));
    assert(dirs[4] == (1i32, 1i32) && dirs[5] == (1i32, -1i32) && dirs[6] == (-1i32, 1i32)
        && dirs[7] == (-1i32, -1i32));
    if slides_any(pos, from, dirs, 8, to, color) {
        let i = choose|i: int| 0 <= i < 8 && #[trigger] pos.slides(from, heading(dirs[i]), to, color);
        assert(unit(heading(dirs[i])));
    }
    if pos.queen_reach(from, to, color) {
        let d = choose|d: Coord|
            (straight(d) || diagonal(d)) && #[trigger] pos.slides(from, d, to, color);
        let i: int = if d == (0int, 1int) {
            0
        } else if d == (1int, 0int) {
            1
        } else if d == (-1int, 0int) {
            2
        } else if d == (0int, -1int) {
            3
        } else if d == (1int, 1int) {
            4
        } else if d == (1int, -1int) {
            5
        } else if d == (-1int, 1int) {
            6
        } else {
            7
        };
        assert(heading(dirs[i]) == d);
    }
}

/// The king's table lists the eight neighbouring squares.
proof fn lemma_king_table(from: Coord, to: Coord, dirs: Seq<(i32, i32)>)
    requires
        dirs == seq![
            (0i32, 1i32),
            (1i32, 0i32),
            (-1i32, 0i32),
            (0i32, -1i32),
            (1i32, 1i32),
            (1i32, -1i32),
            (-1i32, 1i32),
            (-1i32, -1i32),
        ],
    ensures
        hops_any(from, dirs, 8, to) <==> (to != from && -1 <= to.0 - from.0 <= 1 && -1 <= to.1
            - from.1 <= 1),
{
    assert(dirs[0] == (0i32, 1i32) && dirs[1] == (1i32, 0i32) && dirs[2] == (-1i32, 0i32) && dirs[3]
        == (0i32, -1i32));
    assert(dirs[4] == (1i32, 1i32) && dirs[5] == (1i32, -1i32) && dirs[6] == (-1i32, 1i32)
        && dirs[7] == (-1i32, -1i32));
    if to != from && -1 <= to.0 - from.0 <= 1 && -1 <= to.1 - from.1 <= 1 {
        let d = (to.0 - from.0, to.1 - from.1);
        let i: int = if d == (0int, 1int) {
            0
        } else if d == (1int, 0int) {
            1
        } else if d == (-1int, 0int) {
            2
        } else if d == (0int, -1int) {
            3
        } else if d == (1int, 1int) {
            4
        } else if d == (1int, -1int) {
            5
        } else if d == (-1int, 1int) {
            6
        } else {
            7
        };
        assert(displaced(from, dirs[i], to));
    }
}

/// The knight's table lists the eight knight jumps.
proof fn lemma_knight_table(from: Coord, to: Coord, dirs: Seq<(i32, i32)>)
    requires
        dirs == seq![
            (2i32, 1i32),
            (1i32, -2i32),
            (-1i32, 2i32),
            (-2i32, -1i32),
            (1i32, 2i32),
            (-2i32, 1i32),
            (2i32, -1i32),
            (-1i32, -2i32),
        ],
    ensures
        hops_any(from, dirs, 8, to) <==> ({
            let dr = to.0 - from.0;
            let dc = to.1 - from.1;
            ((dr == 1 || dr == -1) && (dc == 2 || dc == -2)) || ((dr == 2 || dr == -2) && (dc == 1
                || dc == -1))
        }),
{
    assert(dirs[0] == (2i32, 1i32) && dirs[1] == (1i32, -2i32) && dirs[2] == (-1i32, 2i32)
        && dirs[3] == (-2i32, -1i32));
    assert(dirs[4] == (1i32, 2i32) && dirs[5] == (-2i32, 1i32) && dirs[6] == (2i32, -1i32)
        && dirs[7] == (-1i32, -2i32));
    let dr = to.0 - from.0;
    let dc = to.1 - from.1;
    if ((dr == 1 || dr == -1) && (dc == 2 || dc == -2)) || ((dr == 2 || dr == -2) && (dc == 1 || dc
        == -1)) {
        let d = (dr, dc);
        let i: int = if d == (2int, 1int) {
            0
        } else if d == (1int, -2int) {
            1
        } else if d == (-1int, 2int) {
            2
        } else if d == (-2int, -1int) {
            3
        } else if d == (1int, 2int) {
            4
        } else if d == (-2int, 1int) {
            5
        } else if d == (2int, -1int) {
            6
        } else {
            7
        };
        assert(displaced(from, dirs[i], to));
    }
}

impl Board {
    /// Returns the potential moves in the given directions, stopping upon a
    /// collision. Used for Bishop, Rook, and Queen.
    pub(crate) fn moves_until_collision(&self, dirs: Vec<(i32, i32)>, cell: Cell) -> (moves: Vec<
        Cell,
    >)
        requires
            self.wf(),
            self@.squares.contains_key(cell@),
            forall|i: int| 0 <= i < dirs.len() ==> unit(heading(#[trigger] dirs[i])),
            forall|i: int, j: int| 0 <= i < j < dirs.len() ==> dirs[i] != dirs[j],
        ensures
            moves@.no_duplicates(),
            forall|t: Cell|
                moves@.contains(t) <==> slides_any(
                    self@,
                    cell@,
                    dirs@,
                    dirs.len() as int,
                    t@,
                    self@.squares[cell@].color,
                ),
    {
        let mut moves: Vec<Cell> = Vec::new();
        let ghost pos = self@;
        let ghost from = cell@;
        let ghost color = self@.squares[cell@].color;
        let mut i: usize = 0;
        while i < dirs.len()
            invariant
                self.wf(),
                pos == self@,
                from == cell@,
                pos.squares.contains_key(from),
                color == pos.squares[from].color,
                forall|i: int| 0 <= i < dirs.len() ==> unit(heading(#[trigger] dirs[i])),
                forall|i: int, j: int| 0 <= i < j < dirs.len() ==> dirs[i] != dirs[j],
                i <= dirs.len(),
                moves@.no_duplicates(),
                forall|t: Cell|
                    moves@.contains(t) <==> slides_any(pos, from, dirs@, i as int, t@, color),
            decreases dirs.len() - i,
        {
            let dir = dirs[i];
            let ghost d = heading(dir);
            let ghost mut k: int = 1;
            let mut new_cell = Cell { row: cell.row + dir.0, col: cell.col + dir.1 };
            while self.inbounds(&new_cell) && self.is_empty(&new_cell)
                invariant
                    self.wf(),
                    pos == self@,
                    from == cell@,
                    on_board(from),
                    pos.squares.contains_key(from),
                    color == pos.squares[from].color,
                    forall|i: int| 0 <= i < dirs.len() ==> unit(heading(#[trigger] dirs[i])),
                    forall|i: int, j: int| 0 <= i < j < dirs.len() ==> dirs[i] != dirs[j],
                    i < dirs.len(),
                    dir == dirs[i as int],
                    d == heading(dir),
                    1 <= k <= 8,
                    new_cell@ == step(from, d, k),
                    pos.open_run(from, d, k),
                    moves@.no_duplicates(),
                    forall|t: Cell|
                        moves@.contains(t) <==> slides_any(pos, from, dirs@, i as int, t@, color)
                            || within(from, d, k, t@),
                decreases 8 - k,
            {
                let ghost before = moves@;
                let ghost found = new_cell;
                proof {
                    Self::lemma_ray_cell_is_new(pos, from, dirs@, i as int, k, new_cell, color);
                    lemma_push_fresh(before, new_cell);
                }
                moves.push(new_cell);
                new_cell = Cell { row: new_cell.row + dir.0, col: new_cell.col + dir.1 };
                proof {
                    assert forall|t: Cell|
                        moves@.contains(t) <==> slides_any(pos, from, dirs@, i as int, t@, color)
                            || within(from, d, k + 1, t@) by {
                        assert(moves@.contains(t) <==> before.contains(t) || t == found);
                        if within(from, d, k + 1, t@) {
                            let j = choose|j: int| 1 <= j < k + 1 && t@ == #[trigger] step(from, d, j);
                            if j < k {
                                assert(within(from, d, k, t@));
                            }
                        }
                        if t == found {
                            assert(t@ == step(from, d, k));
                        }
                        if within(from, d, k, t@) {
                            let j = choose|j: int| 1 <= j < k && t@ == #[trigger] step(from, d, j);
                            assert(1 <= j < k + 1);
                        }
                    }
                    k = k + 1;
                }
            }
            // Case for enemy piece collision
            let capture = self.inbounds(&new_cell) && self.is_enemy(&cell, &new_cell);
            let ghost walked = moves@;
            if capture {
                proof {
                    Self::lemma_ray_cell_is_new(pos, from, dirs@, i as int, k, new_cell, color);
                    lemma_push_fresh(walked, new_cell);
                }
                moves.push(new_cell);
            }
            proof {
                assert forall|t: Cell|
                    moves@.contains(t) <==> slides_any(
                        pos,
                        from,
                        dirs@,
                        i as int + 1,
                        t@,
                        color,
                    ) by {
                    let earlier = slides_any(pos, from, dirs@, i as int, t@, color);
                    let along = pos.slides(from, d, t@, color);
                    assert(moves@.contains(t) <==> walked.contains(t) || (capture && t == new_cell));
                    // what this ray gave is what slides along it
                    if within(from, d, k, t@) {
                        let j = choose|j: int| 1 <= j < k && t@ == #[trigger] step(from, d, j);
                        assert(pos.open_run(from, d, j));
                        assert(pos.vacant(step(from, d, j)));
                        assert(along);
                    }
                    if capture && t == new_cell {
                        assert(t@ == step(from, d, k));
                        assert(along);
                    }
                    if along {
                        let n = choose|n: int|
                            1 <= n && t@ == #[trigger] step(from, d, n) && pos.open_run(from, d, n)
                                && pos.landable(t@, color);
                        if n < k {
                            assert(within(from, d, k, t@));
                        } else if n == k {
                            assert(t == new_cell);
                        } else {
                            assert(pos.vacant(step(from, d, k)));
                        }
                    }
                    assert(along <==> within(from, d, k, t@) || (capture && t == new_cell));
                    // and the first i + 1 directions are the first i and this one
                    if earlier {
                        let m = choose|m: int|
                            0 <= m < i && #[trigger] pos.slides(from, heading(dirs@[m]), t@, color);
                        assert(0 <= m < i + 1);
                    }
                    if along {
                        assert(pos.slides(from, heading(dirs@[i as int]), t@, color));
                    }
                    if slides_any(pos, from, dirs@, i as int + 1, t@, color) {
                        let m = choose|m: int|
                            0 <= m < i + 1 && #[trigger] pos.slides(
                                from,
                                heading(dirs@[m]),
                                t@,
                                color,
                            );
                        if m < i {
                            assert(earlier);
                        }
                    }
                }
            }
            i += 1;
        }
        moves
    }

    /// The square `k` steps along direction `i` is none of those found along
    /// the directions before `i`, nor one of the squares before it on its ray.
    proof fn lemma_ray_cell_is_new(
        pos: Position,
        from: Coord,
        dirs: Seq<(i32, i32)>,
        i: int,
        k: int,
        c: Cell,
        color: Color,
    )
        requires
            0 <= i < dirs.len(),
            forall|i: int| 0 <= i < dirs.len() ==> unit(heading(#[trigger] dirs[i])),
            forall|i: int, j: int| 0 <= i < j < dirs.len() ==> dirs[i] != dirs[j],
            k >= 1,
            c@ == step(from, heading(dirs[i]), k),
        ensures
            !slides_any(pos, from, dirs, i, c@, color),
            !within(from, heading(dirs[i]), k, c@),
    {
        let d = heading(dirs[i]);
        if slides_any(pos, from, dirs, i, c@, color) {
            let m = choose|m: int|
                0 <= m < i && #[trigger] pos.slides(from, heading(dirs[m]), c@, color);
            let n = choose|n: int|
                1 <= n && c@ == #[trigger] step(from, heading(dirs[m]), n) && pos.open_run(
                    from,
                    heading(dirs[m]),
                    n,
                ) && pos.landable(c@, color);
            lemma_rays_part(from, heading(dirs[m]), n, d, k);
            assert(dirs[m] == dirs[i]);
        }
        if within(from, d, k, c@) {
            let j = choose|j: int| 1 <= j < k && c@ == #[trigger] step(from, d, j);
            lemma_rays_part(from, d, j, d, k);
        }
    }

    /// Helper function to implement pawn logic.
    pub(crate) fn pawn_moves(&self, cell: Cell) -> (moves: Vec<Cell>)
        requires
            self.wf(),
        ensures
            moves@.no_duplicates(),
            forall|t: Cell|
                moves@.contains(t) <==> self@.squares.contains_key(cell@) && self@.pawn_reach(
                    cell@,
                    t@,
                    self@.squares[cell@].color,
                ),
    {
        let mut moves: Vec<Cell> = Vec::new();
        if let Some(piece) = self.get_piece(&cell) {
            let dir: i32;
            match piece.color {
                Color::Black => {
                    if cell.row == 1 {
                        let new_cell = Cell { row: cell.row + 2, col: cell.col };
                        if self.is_empty(&new_cell) {
                            moves.push(Cell { row: cell.row + 2, col: cell.col });
                        }
                    }
                    dir = 1;
                },
                Color::White => {
                    if cell.row == 6 {
                        let new_cell = Cell { row: cell.row - 2, col: cell.col };
                        if self.is_empty(&new_cell) {
                            moves.push(Cell { row: cell.row - 2, col: cell.col });
                        }
                    }
                    dir = -1;
                },
            }
            let ghost doubled = moves@;
            let vertical = Cell { row: cell.row + dir, col: cell.col };
            let diag_right = Cell { row: cell.row + dir, col: cell.col + 1 };
            let diag_left = Cell { row: cell.row + dir, col: cell.col - 1 };
            let step_ahead = self.inbounds(&vertical) && self.is_empty(&vertical);
            if step_ahead {
                proof {
                    lemma_push_fresh(doubled, vertical);
                }
                moves.push(vertical);
            }
            let ghost forwards = moves@;
            let take_right = self.inbounds(&diag_right) && self.is_enemy(&cell, &diag_right);
            if take_right {
                proof {
                    lemma_push_fresh(forwards, diag_right);
                }
                moves.push(diag_right);
            }
            let ghost righted = moves@;
            let take_left = self.inbounds(&diag_left) && self.is_enemy(&cell, &diag_left);
            if take_left {
                proof {
                    lemma_push_fresh(righted, diag_left);
                }
                moves.push(diag_left);
            }
            proof {
                assert forall|t: Cell|
                    moves@.contains(t) <==> self@.pawn_reach(cell@, t@, piece.color) by {
                    if doubled.len() > 0 {
                        assert(doubled.contains(doubled[0]));
                    }
                    assert(doubled.contains(t) ==> doubled.len() == 1 && t == doubled[0]);
                    assert(forwards.contains(t) <==> doubled.contains(t) || (step_ahead && t
                        == vertical));
                    assert(righted.contains(t) <==> forwards.contains(t) || (take_right && t
                        == diag_right));
                    assert(moves@.contains(t) <==> righted.contains(t) || (take_left && t
                        == diag_left));
                }
            }
        }
        moves
    }

    /// Helper function to implement logic for pieces with set directions.
    /// Pieces include the Knight and the King.
    pub(crate) fn basic_moves(&self, dirs: Vec<(i32, i32)>, cell: Cell) -> (moves: Vec<Cell>)
        requires
            self.wf(),
            self@.squares.contains_key(cell@),
            forall|i: int| 0 <= i < dirs.len() ==> -2 <= (#[trigger] dirs[i]).0 <= 2 && -2 <= dirs[i].1 <= 2,
            forall|i: int, j: int| 0 <= i < j < dirs.len() ==> dirs[i] != dirs[j],
        ensures
            moves@.no_duplicates(),
            forall|t: Cell|
                moves@.contains(t) <==> hops_any(cell@, dirs@, dirs.len() as int, t@)
                    && self@.landable(t@, self@.squares[cell@].color),
    {
        let mut moves: Vec<Cell> = Vec::new();
        let ghost pos = self@;
        let ghost from = cell@;
        let ghost color = self@.squares[cell@].color;
        let mut i: usize = 0;
        while i < dirs.len()
            invariant
                self.wf(),
                pos == self@,
                from == cell@,
                on_board(from),
                pos.squares.contains_key(from),
                color == pos.squares[from].color,
                forall|i: int| 0 <= i < dirs.len() ==> -2 <= (#[trigger] dirs[i]).0 <= 2 && -2 <= dirs[i].1 <= 2,
                forall|i: int, j: int| 0 <= i < j < dirs.len() ==> dirs[i] != dirs[j],
                i <= dirs.len(),
                moves@.no_duplicates(),
                forall|t: Cell|
                    moves@.contains(t) <==> hops_any(from, dirs@, i as int, t@) && pos.landable(
                        t@,
                        color,
                    ),
            decreases dirs.len() - i,
        {
            let dir = dirs[i];
            let new_cell = Cell { row: cell.row + dir.0, col: cell.col + dir.1 };
            let ghost before = moves@;
            let wanted = self.inbounds(&new_cell) && (self.is_empty(&new_cell) || self.is_enemy(
                &cell,
                &new_cell,
            ));
            if wanted {
                proof {
                    if hops_any(from, dirs@, i as int, new_cell@) {
                        let m = choose|m: int|
                            0 <= m < i && #[trigger] displaced(from, dirs@[m], new_cell@);
                        assert(dirs@[m] == dirs@[i as int]);
                    }
                    lemma_push_fresh(before, new_cell);
                }
                moves.push(new_cell);
            }
            proof {
                assert(displaced(from, dirs@[i as int], new_cell@));
                assert forall|t: Cell|
                    moves@.contains(t) <==> hops_any(from, dirs@, i as int + 1, t@)
                        && pos.landable(t@, color) by {
                    assert(moves@.contains(t) <==> before.contains(t) || (wanted && t == new_cell));
                    if hops_any(from, dirs@, i as int, t@) {
                        let m = choose|m: int| 0 <= m < i && #[trigger] displaced(from, dirs@[m], t@);
                        assert(0 <= m < i + 1);
                    }
                    if hops_any(from, dirs@, i as int + 1, t@) {
                        let m = choose|m: int|
                            0 <= m < i + 1 && #[trigger] displaced(from, dirs@[m], t@);
                        if m < i {
                            assert(hops_any(from, dirs@, i as int, t@));
                        } else {
                            assert(t == new_cell);
                        }
                    }
                }
            }
            i += 1;
        }
        moves
    }

    /// Calculate the potential moves for a given cell index: every cell that
    /// the piece standing there reaches by its movement pattern, each once.
    /// An empty cell, or one outside the board, has none.
    pub fn potential_moves(&self, cell: &Cell) -> (moves: Vec<Cell>)
        requires
            self.wf(),
        ensures
            moves@.no_duplicates(),
            forall|t: Cell| moves@.contains(t) <==> self@.reaches(cell@, t@),
    {
        let ghost pos = self@;
        let ghost from = cell@;
        if let Some(piece) = self.get_piece(cell) {
            match piece.piece_type {
                PieceType::Queen => {
                    let dirs: Vec<(i32, i32)> = vec![
                        (0, 1),
                        (1, 0),
                        (-1, 0),
                        (0, -1),
                        (1, 1),
                        (1, -1),
                        (-1, 1),
                        (-1, -1),
                    ];
                    let moves = self.moves_until_collision(dirs, *cell);
                    proof {
                        assert forall|t: Cell| moves@.contains(t) <==> pos.reaches(from, t@) by {
                            lemma_queen_table(pos, from, t@, piece.color, dirs@);
                        }
                    }
                    moves
                },
                PieceType::Bishop => {
                    let dirs: Vec<(i32, i32)> = vec![(1, 1), (1, -1), (-1, 1), (-1, -1)];
                    let moves = self.moves_until_collision(dirs, *cell);
                    proof {
                        assert forall|t: Cell| moves@.contains(t) <==> pos.reaches(from, t@) by {
                            lemma_bishop_table(pos, from, t@, piece.color, dirs@);
                        }
                    }
                    moves
                },
                PieceType::Rook => {
                    let dirs: Vec<(i32, i32)> = vec![(0, 1), (1, 0), (-1, 0), (0, -1)];
                    let moves = self.moves_until_collision(dirs, *cell);
                    proof {
                        assert forall|t: Cell| moves@.contains(t) <==> pos.reaches(from, t@) by {
                            lemma_rook_table(pos, from, t@, piece.color, dirs@);
                        }
                    }
                    moves
                },
                PieceType::Pawn => self.pawn_moves(*cell),
                PieceType::King => {
                    let dirs: Vec<(i32, i32)> = vec![
                        (0, 1),
                        (1, 0),
                        (-1, 0),
                        (0, -1),
                        (1, 1),
                        (1, -1),
                        (-1, 1),
                        (-1, -1),
                    ];
                    let moves = self.basic_moves(dirs, *cell);
                    proof {
                        assert forall|t: Cell| moves@.contains(t) <==> pos.reaches(from, t@) by {
                            lemma_king_table(from, t@, dirs@);
                        }
                    }
                    moves
                },
                PieceType::Knight => {
                    let dirs: Vec<(i32, i32)> = vec![
                        (2, 1),
                        (1, -2),
                        (-1, 2),
                        (-2, -1),
                        (1, 2),
                        (-2, 1),
                        (2, -1),
                        (-1, -2),
                    ];
                    let moves = self.basic_moves(dirs, *cell);
                    proof {
                        assert forall|t: Cell| moves@.contains(t) <==> pos.reaches(from, t@) by {
                            lemma_knight_table(from, t@, dirs@);
                        }
                    }
                    moves
                },
            }
        } else {
            Vec::new()
        }
    }
}

} // verus!
