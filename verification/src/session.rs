//! The game session: the one shared board, the two seats and the connected
//! clients, and the relay that turns each incoming action into the action to
//! send out and the clients to send it to.
//!
//! The session decides; sending and receiving is left to the caller.

use crate::board::{Board, Cell, Color};
use crate::rules::{lemma_check_alike, lemma_initial_quiet, opponent, Position};
use vstd::prelude::*;

verus! {

/// A single, atomic action taken by a client or sent to clients.
#[derive(Debug)]
pub enum Action {
    Connect { addr: String },
    Disconnect { addr: String },
    Select { addr: String, cell: Cell },
    Board { board: Board, check: bool, checkmate: bool },
    Msg { user: String, text: String },
    Moves { cells: Vec<Cell> },
    Move { from: Cell, to: Cell },
}

/// Why an action or a payload was dropped. A drop is silent: nothing is ever
/// sent to a client about it.
#[derive(Clone, Copy, Debug, PartialEq, Eq, Structural)]
pub enum Rejection {
    /// The payload is malformed: an unknown variant, or fields that are
    /// missing or are no board coordinates.
    DecodeError,
    /// The selected cell is empty or holds a piece of the other side.
    IllegalSelection,
    /// The sender does not hold the seat of the side to move.
    OutOfTurn,
    /// The move is not a legal move of a piece of the side to move.
    InvalidMoveSubmission,
    /// The payload arrived on a connection that has been closed.
    ConnectionClosed,
}

/// What the relay does with an action it has handled.
#[derive(Debug)]
pub enum Dispatch {
    /// The action was rejected: no message goes out and the session is as
    /// it was.
    Dropped { reason: Rejection },
    /// `action` goes to the client with address `addr` only.
    Unicast { addr: String, action: Action },
    /// `action` goes to every connected client.
    Broadcast { action: Action },
}

/// The session: the board, the addresses that hold the two seats, and the
/// addresses of the connected clients.
#[derive(Debug)]
pub struct Session {
    board: Board,
    white: Option<String>,
    black: Option<String>,
    clients: Vec<String>,
}

/// The session as contracts see it.
pub struct SessionView {
    pub position: Position,
    pub white: Option<Seq<char>>,
    pub black: Option<Seq<char>>,
    pub clients: Set<Seq<char>>,
}

impl SessionView {
    /// A new session: the starting position, no seat taken, nobody connected.
    pub open spec fn initial() -> SessionView {
        SessionView {
            position: Position::initial(),
            white: None,
            black: None,
            clients: Set::empty(),
        }
    }

    /// The state of a session in play: every piece stands on the cell it
    /// records, no side has two kings, and the side that has just moved did
    /// not leave its own king attacked.
    pub open spec fn sound(self) -> bool {
        self.position.wf() && !self.position.in_check(opponent(self.position.active))
    }

    /// The address holds the seat of `color`.
    pub open spec fn seated(self, addr: Seq<char>, color: Color) -> bool {
        match color {
            Color::White => self.white == Some(addr),
            Color::Black => self.black == Some(addr),
        }
    }

    /// The address holds the seat of the side to move.
    pub open spec fn may_act(self, addr: Seq<char>) -> bool {
        self.seated(addr, self.position.active)
    }

    /// The session after a connection from `addr`: it takes the first free
    /// seat, White before Black, if there is one, and joins the clients.
    pub open spec fn joined(self, addr: Seq<char>) -> SessionView {
        SessionView {
            position: self.position,
            white: if self.white is None {
                Some(addr)
            } else {
                self.white
            },
            black: if self.white is Some && self.black is None {
                Some(addr)
            } else {
                self.black
            },
            clients: self.clients.insert(addr),
        }
    }

    /// Why a selection of `cell` by `addr` is not answered, if it is not:
    /// the address does not hold the seat of the side to move, or no piece of
    /// that side stands on the cell.
    pub open spec fn refuses_selection(self, addr: Seq<char>, cell: Cell) -> Option<Rejection> {
        if !self.may_act(addr) {
            Some(Rejection::OutOfTurn)
        } else if !self.position.holds(cell@, self.position.active) {
            Some(Rejection::IllegalSelection)
        } else {
            None
        }
    }

    /// A selection of `cell` by `addr` is answered: the address holds the
    /// seat of the side to move, and a piece of that side stands on the cell.
    pub open spec fn answers(self, addr: Seq<char>, cell: Cell) -> bool {
        self.refuses_selection(addr, cell) is None
    }

    /// A move is accepted: a piece of the side to move stands on `from`, and
    /// its move to `to` is legal.
    pub open spec fn accepts(self, from: Cell, to: Cell) -> bool {
        self.position.holds(from@, self.position.active) && self.position.legal(from@, to@)
    }

    /// The session after an accepted move: the piece is moved and the turn
    /// passes to the other side.
    pub open spec fn moved(self, from: Cell, to: Cell) -> SessionView {
        SessionView {
            position: self.position.after_move(from@, to@).flipped(),
            white: self.white,
            black: self.black,
            clients: self.clients,
        }
    }

    /// The session after the client with address `addr` has left. The seats
    /// and the board stay as they are.
    pub open spec fn departed(self, addr: Seq<char>) -> SessionView {
        SessionView {
            position: self.position,
            white: self.white,
            black: self.black,
            clients: self.clients.remove(addr),
        }
    }
}

impl View for Session {
    type V = SessionView;

    closed spec fn view(&self) -> SessionView {
        SessionView {
            position: self.board@,
            white: match self.white {
                Some(a) => Some(a@),
                None => None,
            },
            black: match self.black {
                Some(a) => Some(a@),
                None => None,
            },
            clients: Set::new(
                |a: Seq<char>| exists|i: int| 0 <= i < self.clients.len() && (#[trigger] self.clients[i])@ == a,
            ),
        }
    }
}

impl Session {
    /// The session is in a sound state and no client is listed twice.
    pub closed spec fn wf(&self) -> bool {
        &&& self.board.wf()
        &&& !self.board@.in_check(opponent(self.board@.active))
        &&& forall|i: int, j: int|
            0 <= i < j < self.clients.len() ==> (#[trigger] self.clients[i])@ != (
            #[trigger] self.clients[j])@
    }

    /// A session at its start.
    pub fn new() -> (session: Session)
        ensures
            session.wf(),
            session@ == SessionView::initial(),
    {
        let session = Session { board: Board::new(), white: None, black: None, clients: Vec::new() };
        proof {
            assert(session@.clients =~= Set::empty());
            lemma_initial_quiet();
        }
        session
    }

    /// A well-formed session is in a sound state.
    pub proof fn lemma_sound(&self)
        requires
            self.wf(),
        ensures
            self@.sound(),
    {
    }

    /// The shared board.
    pub fn board(&self) -> (board: &Board)
        requires
            self.wf(),
        ensures
            board.wf(),
            board@ == self@.position,
    {
        &self.board
    }

    /// Whether `addr` holds the seat of `color`.
    pub fn seated(&self, addr: &String, color: Color) -> (held: bool)
        ensures
            held == self@.seated(addr@, color),
    {
        let seat = match color {
            Color::White => &self.white,
            Color::Black => &self.black,
        };
        match seat {
            Some(holder) => *holder == *addr,
            None => false,
        }
    }

    /// Turn ownership: whether `addr` holds the seat of the side to move.
    pub fn may_act(&self, addr: &String) -> (allowed: bool)
        ensures
            allowed == self@.may_act(addr@),
    {
        self.seated(addr, self.board.active_color())
    }

    /// Where `addr` stands in the list of connected clients.
    fn index_of(&self, addr: &String) -> (found: Option<usize>)
        ensures
            match found {
                Some(i) => i < self.clients.len() && self.clients[i as int]@ == addr@,
                None => forall|j: int|
                    0 <= j < self.clients.len() ==> (#[trigger] self.clients[j])@ != addr@,
            },
    {
        let mut i: usize = 0;
        while i < self.clients.len()
            invariant
                i <= self.clients.len(),
                forall|j: int| 0 <= j < i ==> (#[trigger] self.clients[j])@ != addr@,
            decreases self.clients.len() - i,
        {
            if self.clients[i] == *addr {
                return Some(i);
            }
            i += 1;
        }
        None
    }

    /// Whether a client with address `addr` is connected.
    pub fn is_connected(&self, addr: &String) -> (connected: bool)
        ensures
            connected == self@.clients.contains(addr@),
    {
        self.index_of(addr).is_some()
    }

    /// Takes in a new connection: `addr` gets the first free seat, White
    /// before Black, and joins the connected clients. Returns the seat it
    /// was given, or `None` for a spectator.
    pub fn join(&mut self, addr: &String) -> (seat: Option<Color>)
        requires
            old(self).wf(),
        ensures
            final(self).wf(),
            final(self)@ == old(self)@.joined(addr@),
            seat == if old(self)@.white is None {
                Some(Color::White)
            } else if old(self)@.black is None {
                Some(Color::Black)
            } else {
                None
            },
    {
        let seat = if self.white.is_none() {
            self.white = Some(addr.clone());
            Some(Color::White)
        } else if self.black.is_none() {
            self.black = Some(addr.clone());
            Some(Color::Black)
        } else {
            None
        };
        if !self.is_connected(addr) {
            self.clients.push(addr.clone());
            proof {
                let n = old(self).clients.len() as int;
                assert(self.clients[n]@ == addr@);
                assert forall|a: Seq<char>| #[trigger]
                    self@.clients.contains(a) <==> old(self)@.clients.insert(addr@).contains(
                        a,
                    ) by {
                    if old(self)@.clients.contains(a) {
                        let i = choose|i: int|
                            0 <= i < old(self).clients.len() && (#[trigger] old(self).clients[i])@
                                == a;
                        assert(self.clients[i]@ == a);
                    }
                    if self@.clients.contains(a) {
                        let i = choose|i: int|
                            0 <= i < self.clients.len() && (#[trigger] self.clients[i])@ == a;
                        if i < n {
                            assert(old(self).clients[i]@ == a);
                        }
                    }
                }
            }
        }
        proof {
            assert(self@.clients =~= old(self)@.clients.insert(addr@));
        }
        seat
    }

    /// Strikes `addr` from the connected clients.
    fn forget(&mut self, addr: &String)
        requires
            old(self).wf(),
        ensures
            final(self).wf(),
            final(self)@ == old(self)@.departed(addr@),
    {
        if let Some(i) = self.index_of(addr) {
            self.clients.remove(i);
            proof {
                let before = old(self).clients@;
                let after = self.clients@;
                assert(after == before.remove(i as int));
                assert forall|x: int, y: int| 0 <= x < y < after.len() implies (#[trigger] after[x])@
                    != (#[trigger] after[y])@ by {
                    let p = if x < i { x } else { x + 1 };
                    let q = if y < i { y } else { y + 1 };
                    assert(after[x] == before[p] && after[y] == before[q]);
                    assert(before[p]@ != before[q]@);
                }
                assert forall|a: Seq<char>| #[trigger]
                    self@.clients.contains(a) <==> old(self)@.clients.remove(addr@).contains(
                        a,
                    ) by {
                    if self@.clients.contains(a) {
                        let n = choose|n: int| 0 <= n < after.len() && (#[trigger] after[n])@ == a;
                        let m = if n < i { n } else { n + 1 };
                        assert(after[n] == before[m]);
                        assert(before[m]@ == a);
                        if m != i {
                            if m < i {
                                assert(before[m]@ != before[i as int]@);
                            } else {
                                assert(before[i as int]@ != before[m]@);
                            }
                        }
                    }
                    if old(self)@.clients.contains(a) && a != addr@ {
                        let m = choose|m: int|
                            0 <= m < before.len() && (#[trigger] before[m])@ == a;
                        let n = if m < i { m } else { m - 1 };
                        assert(after[n] == before[m]);
                        assert(after[n]@ == a);
                    }
                }
            }
        }
        proof {
            assert(self@.clients =~= old(self)@.clients.remove(addr@));
        }
    }

    /// The relay step: handles one incoming action and says what to send.
    ///
    /// * A selection is answered with the legal moves of the selected piece,
    ///   to the sender only, if the sender holds the seat of the side to move
    ///   and selected a piece of that side. Otherwise it is dropped.
    /// * A move is made if a piece of the side to move stands on `from` and
    ///   its move to `to` is legal. Then the turn passes to the other side
    ///   and the new board goes to everyone, together with whether the side
    ///   that moved gives check and whether it has checkmated the other side.
    ///   Otherwise the move is dropped and the session stays as it was.
    /// * A disconnect strikes the address from the connected clients and goes
    ///   to everyone, as it is.
    /// * Any other action goes to everyone, as it is.
    pub fn handle(&mut self, action: Action) -> (out: Dispatch)
        requires
            old(self).wf(),
        ensures
            final(self).wf(),
            final(self)@.position.active == if action matches Action::Move { from, to }
                && old(self)@.accepts(from, to) {
                opponent(old(self)@.position.active)
            } else {
                old(self)@.position.active
            },
            match action {
                Action::Select { addr, cell } => {
                    &&& final(self)@ == old(self)@
                    &&& match old(self)@.refuses_selection(addr@, cell) {
                        None => {
                            &&& out matches Dispatch::Unicast {
                                addr: to,
                                action: Action::Moves { cells },
                            }
                            &&& to == addr
                            &&& cells@.no_duplicates()
                            &&& forall|t: Cell|
                                cells@.contains(t) <==> old(self)@.position.legal(cell@, t@)
                        },
                        Some(reason) => out == (Dispatch::Dropped { reason }),
                    }
                },
                Action::Move { from, to } => {
                    if old(self)@.accepts(from, to) {
                        &&& final(self)@ == old(self)@.moved(from, to)
                        &&& out matches Dispatch::Broadcast {
                            action: Action::Board { board, check, checkmate },
                        }
                        &&& board.wf()
                        &&& board@ == final(self)@.position
                        &&& check == old(self)@.position.after_move(from@, to@).in_check(
                            opponent(old(self)@.position.active),
                        )
                        &&& checkmate == old(self)@.position.after_move(from@, to@).checkmated(
                            opponent(old(self)@.position.active),
                        )
                    } else {
                        &&& final(self)@ == old(self)@
                        &&& out == (Dispatch::Dropped { reason: Rejection::InvalidMoveSubmission })
                    }
                },
                Action::Disconnect { addr } => {
                    &&& final(self)@ == old(self)@.departed(addr@)
                    &&& out == (Dispatch::Broadcast { action })
                },
                _ => {
                    &&& final(self)@ == old(self)@
                    &&& out == (Dispatch::Broadcast { action })
                },
            },
    {
        match action {
            Action::Select { addr, cell } => {
                if !self.may_act(&addr) {
                    Dispatch::Dropped { reason: Rejection::OutOfTurn }
                } else if !self.board.is_friendly_board(&cell) {
                    Dispatch::Dropped { reason: Rejection::IllegalSelection }
                } else {
                    let cells = self.board.legal_moves(&cell);
                    Dispatch::Unicast { addr: addr, action: Action::Moves { cells: cells } }
                }
            },
            Action::Move { from, to } => {
                if self.board.is_friendly_board(&from) && self.board.is_legal(&from, &to) {
                    // Modify board state and check for check, checkmate.
                    self.board.move_piece(from, to);
                    let check = self.board.check();
                    let checkmate = self.board.checkmate();
                    let ghost made = self.board@;
                    self.board.switch_color();
                    proof {
                        lemma_check_alike(made, self.board@, made.active);
                    }
                    Dispatch::Broadcast {
                        action: Action::Board {
                            board: self.board.duplicate(),
                            check: check,
                            checkmate: checkmate,
                        },
                    }
                } else {
                    Dispatch::Dropped { reason: Rejection::InvalidMoveSubmission }
                }
            },
            Action::Disconnect { addr } => {
                self.forget(&addr);
                Dispatch::Broadcast { action: Action::Disconnect { addr: addr } }
            },
            other => Dispatch::Broadcast { action: other },
        }
    }

    /// The addresses that a dispatch goes to: nobody, the one addressed
    /// client if it is connected, or every connected client. No address is
    /// listed twice.
    pub fn recipients(&self, dispatch: &Dispatch) -> (list: Vec<String>)
        requires
            self.wf(),
        ensures
            forall|i: int, j: int| 0 <= i < j < list.len() ==> (#[trigger] list[i])@ != (
            #[trigger] list[j])@,
            forall|a: Seq<char>|
                (exists|i: int| 0 <= i < list.len() && (#[trigger] list[i])@ == a) <==> match *dispatch {
                    Dispatch::Dropped { .. } => false,
                    Dispatch::Unicast { addr, .. } => a == addr@ && self@.clients.contains(a),
                    Dispatch::Broadcast { .. } => self@.clients.contains(a),
                },
    {
        let mut list: Vec<String> = Vec::new();
        match dispatch {
            Dispatch::Dropped { .. } => {},
            Dispatch::Unicast { addr, .. } => {
                if self.is_connected(addr) {
                    list.push(addr.clone());
                    proof {
                        assert(list[0]@ == addr@);
                    }
                }
            },
            Dispatch::Broadcast { .. } => {
                let mut i: usize = 0;
                while i < self.clients.len()
                    invariant
                        i <= self.clients.len(),
                        list.len() == i,
                        forall|j: int| 0 <= j < i ==> (#[trigger] list[j])@ == self.clients[j]@,
                    decreases self.clients.len() - i,
                {
                    list.push(self.clients[i].clone());
                    i += 1;
                }
                proof {
                    assert forall|a: Seq<char>|
                        (exists|i: int| 0 <= i < list.len() && (#[trigger] list[i])@ == a)
                            <==> self@.clients.contains(a) by {
                        if self@.clients.contains(a) {
                            let n = choose|n: int|
                                0 <= n < self.clients.len() && (#[trigger] self.clients[n])@ == a;
                            assert(list[n]@ == a);
                        }
                        if exists|i: int| 0 <= i < list.len() && (#[trigger] list[i])@ == a {
                            let n = choose|n: int| 0 <= n < list.len() && (#[trigger] list[n])@ == a;
                            assert(self.clients[n]@ == a);
                        }
                    }
                }
            },
        }
        list
    }
}

} // verus!
