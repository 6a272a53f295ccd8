//! What holds of the board and of the session in every state, stated over
//! the models that the contracts of the library use.

use crate::board::{Cell, PieceType};
use crate::client::{PayloadView, Request};
use crate::rules::{lemma_move_keeps_order, on_board, opponent, Coord, Position};
use crate::session::{Rejection, SessionView};
use vstd::prelude::*;

verus! {

/// On a well-formed board, whatever stands on a square of the board records
/// that square as its cell, and nothing stands off the board.
pub proof fn lemma_piece_knows_its_cell(pos: Position, t: Coord)
    requires
        pos.wf(),
    ensures
        pos.at(t) matches Some(piece) ==> on_board(t) && piece.cell@ == t,
{
}

/// A move keeps the board well formed and leaves the side to move as it
/// was; passing the turn changes the side to move and nothing else.
pub proof fn lemma_moving_and_passing(pos: Position, from: Coord, to: Coord)
    requires
        pos.wf(),
    ensures
        pos.after_move(from, to).wf(),
        pos.after_move(from, to).active == pos.active,
        pos.flipped().wf(),
        pos.flipped().active == opponent(pos.active),
        pos.flipped().squares == pos.squares,
{
    lemma_move_keeps_order(pos, from, to);
}

/// The side to move changes with an accepted move, to the other side, and
/// with nothing else that happens to a session.
pub proof fn lemma_turn_passes_with_a_move(
    session: SessionView,
    from: Cell,
    to: Cell,
    addr: Seq<char>,
)
    ensures
        session.moved(from, to).position.active == opponent(session.position.active),
        session.joined(addr).position == session.position,
        session.departed(addr).position == session.position,
{
}

/// Reading back the grid that shows a well-formed position gives that
/// position again: the same piece, of the same side, on every square.
pub proof fn lemma_snapshot_round_trip(pos: Position)
    requires
        pos.wf(),
    ensures
        Position::restored(pos.active, pos.picture()) == Some(pos),
{
    let grid = pos.picture();
    let back = Position::shown_by(pos.active, grid);
    assert forall|t: Coord| back.squares.contains_key(t) == pos.squares.contains_key(t)
        && (back.squares.contains_key(t) ==> back.squares[t] == pos.squares[t]) by {
        if on_board(t) {
            assert(grid[t.0][t.1] == pos.at(t));
        }
    }
    assert(back.squares =~= pos.squares);
}

/// A selection or a move from a client that does not hold the seat of the
/// side to move is dropped before it reaches the relay, whatever its fields.
pub proof fn lemma_out_of_turn_is_dropped(session: SessionView, ip: Seq<char>, payload: PayloadView)
    requires
        !session.may_act(ip),
        payload.variant == "Select"@ || payload.variant == "Move"@,
    ensures
        session.request(ip, payload) == Err::<Request, Rejection>(Rejection::OutOfTurn),
{
}

/// The relay itself answers no selection from an address that does not hold
/// the seat of the side to move.
pub proof fn lemma_relay_ignores_out_of_turn(session: SessionView, addr: Seq<char>, cell: Cell)
    requires
        !session.may_act(addr),
    ensures
        !session.answers(addr, cell),
        session.refuses_selection(addr, cell) == Some(Rejection::OutOfTurn),
{
}

/// In a sound session an accepted move never takes a king, and the session
/// after it is sound again.
pub proof fn lemma_kings_are_never_taken(session: SessionView, from: Cell, to: Cell)
    requires
        session.sound(),
        session.accepts(from, to),
    ensures
        !(session.position.squares.contains_key(to@) && session.position.squares[to@].piece_type
            == PieceType::King),
        session.moved(from, to).sound(),
{
    let pos = session.position;
    if pos.squares.contains_key(to@) && pos.squares[to@].piece_type == PieceType::King {
        crate::rules::lemma_reach_on_board(pos, from@, to@);
        crate::rules::lemma_reach_hits_others(pos, from@, to@);
        assert(pos.holds(from@, pos.active));
        assert(pos.holds_king(to@, opponent(pos.active)));
        assert(pos.reaches(from@, to@));
    }
    lemma_move_keeps_order(pos, from@, to@);
    crate::rules::lemma_check_alike(
        pos.after_move(from@, to@),
        session.moved(from, to).position,
        pos.active,
    );
}

} // verus!
