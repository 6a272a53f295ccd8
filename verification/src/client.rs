//! The client side of the session: what a connection's decoded messages
//! become before they are handed to the relay.
//!
//! A message arrives as a variant name and a list of text fields. Selections
//! and moves are passed on only when the sender holds the seat of the side to
//! move and the fields are board coordinates written in decimal.

use crate::board::{Cell, Color};
use crate::rules::Coord;
use crate::session::{Action, Rejection, Session, SessionView};
use vstd::prelude::*;

verus! {

/// A decoded message of a client: the name of a variant and its fields in
/// order, each as text.
#[derive(Debug)]
pub struct Payload {
    pub variant: String,
    pub fields: Vec<String>,
}

/// A payload as contracts see it.
pub struct PayloadView {
    pub variant: Seq<char>,
    pub fields: Seq<Seq<char>>,
}

impl View for Payload {
    type V = PayloadView;

    open spec fn view(&self) -> PayloadView {
        PayloadView {
            variant: self.variant@,
            fields: Seq::new(self.fields.len() as nat, |i: int| self.fields[i]@),
        }
    }
}

/// What a payload asks for, once it has been accepted.
pub enum Request {
    Select { cell: Coord },
    Move { from: Coord, to: Coord },
    Msg { user: Seq<char>, text: Seq<char> },
}

/// A decimal digit.
pub open spec fn is_digit(c: char) -> bool {
    '0' <= c && c <= '9'
}

/// Every character is a decimal digit.
pub open spec fn all_digits(s: Seq<char>) -> bool {
    forall|i: int| 0 <= i < s.len() ==> is_digit(#[trigger] s[i])
}

/// The number that a run of decimal digits writes down.
pub open spec fn number(s: Seq<char>) -> int
    decreases s.len(),
{
    if s.len() == 0 {
        0
    } else {
        10 * number(s.drop_last()) + (s.last() as int - '0' as int)
    }
}

/// The text starts with a sign.
pub open spec fn signed(s: Seq<char>) -> bool {
    s.len() > 0 && (s[0] == '+' || s[0] == '-')
}

/// The integer that a text writes down in decimal: an optional sign, then
/// one digit or more, and nothing else.
pub open spec fn decimal(s: Seq<char>) -> Option<int> {
    let digits = if signed(s) {
        s.subrange(1, s.len() as int)
    } else {
        s
    };
    if digits.len() > 0 && all_digits(digits) {
        Some(
            if s[0] == '-' {
                -number(digits)
            } else {
                number(digits)
            },
        )
    } else {
        None
    }
}

/// The row or column that a text writes down: a decimal integer from 0 to 7.
pub open spec fn coordinate(s: Seq<char>) -> Option<int> {
    match decimal(s) {
        Some(v) => if 0 <= v < 8 {
            Some(v)
        } else {
            None
        },
        None => None,
    }
}

/// The cell that two fields, starting at `at`, write down.
pub open spec fn cell_at(fields: Seq<Seq<char>>, at: int) -> Option<Coord> {
    if 0 <= at && at + 1 < fields.len() {
        match (coordinate(fields[at]), coordinate(fields[at + 1])) {
            (Some(row), Some(col)) => Some((row, col)),
            _ => None,
        }
    } else {
        None
    }
}

impl SessionView {
    /// The name under which the messages of `ip` are shown.
    pub open spec fn label(self, ip: Seq<char>) -> Seq<char> {
        if self.white == Some(ip) {
            "White"@
        } else if self.black == Some(ip) {
            "Black"@
        } else {
            "Spectator"@
        }
    }

    /// What the payload of the client `ip` asks for, or why it is dropped.
    ///
    /// A selection or a move is passed on only if `ip` holds the seat of the
    /// side to move and the fields give cells of the board. A message is
    /// passed on under the sender's label, with the second field as its text.
    /// Nothing else is passed on.
    pub open spec fn request(self, ip: Seq<char>, payload: PayloadView) -> Result<
        Request,
        Rejection,
    > {
        if payload.variant == "Select"@ {
            if !self.may_act(ip) {
                Err(Rejection::OutOfTurn)
            } else {
                match cell_at(payload.fields, 0) {
                    Some(cell) => Ok(Request::Select { cell }),
                    None => Err(Rejection::DecodeError),
                }
            }
        } else if payload.variant == "Move"@ {
            if !self.may_act(ip) {
                Err(Rejection::OutOfTurn)
            } else {
                match (cell_at(payload.fields, 0), cell_at(payload.fields, 2)) {
                    (Some(from), Some(to)) => Ok(Request::Move { from, to }),
                    _ => Err(Rejection::DecodeError),
                }
            }
        } else if payload.variant == "Msg"@ {
            if payload.fields.len() >= 2 {
                Ok(Request::Msg { user: self.label(ip), text: payload.fields[1] })
            } else {
                Err(Rejection::DecodeError)
            }
        } else {
            Err(Rejection::DecodeError)
        }
    }
}

/// A run of digits never writes down a negative number.
proof fn lemma_number_bounds(s: Seq<char>)
    requires
        all_digits(s),
    ensures
        number(s) >= 0,
    decreases s.len(),
{
    if s.len() > 0 {
        assert(is_digit(s[s.len() - 1]));
        assert forall|i: int| 0 <= i < s.drop_last().len() implies is_digit(
            #[trigger] s.drop_last()[i],
        ) by {
            assert(s.drop_last()[i] == s[i]);
        }
        lemma_number_bounds(s.drop_last());
    }
}

/// Reads a row or a column: a decimal integer from 0 to 7, with an optional
/// sign and any number of leading zeros. Any other text gives `None`.
pub fn parse_coordinate(text: &String) -> (value: Option<i32>)
    ensures
        match coordinate(text@) {
            Some(v) => value == Some(v as i32),
            None => value is None,
        },
{
    let s = text.as_str();
    let ghost digits = if signed(text@) {
        text@.subrange(1, text@.len() as int)
    } else {
        text@
    };
    if !s.is_ascii() {
        proof {
            // a character outside ASCII is neither a sign nor a digit
            let i = choose|i: int|
                0 <= i < text@.len() && !('\0' <= #[trigger] text@[i] <= '\u{7f}');
            if signed(text@) {
                assert(i >= 1);
                assert(digits[i - 1] == text@[i]);
            } else {
                assert(digits[i] == text@[i]);
            }
        }
        return None;
    }
    let n = s.unicode_len();
    if n == 0 {
        return None;
    }
    let first = s.get_ascii(0);
    let negative = first == 45;
    let start: usize = if first == 43 || first == 45 {
        1
    } else {
        0
    };
    proof {
        assert(digits == text@.subrange(start as int, n as int)) by {
            if start == 0 {
                assert(text@.subrange(0, n as int) =~= text@);
            }
        }
    }
    // the number read so far, or 8 for every number above 7
    let mut capped: u32 = 0;
    let mut i: usize = start;
    while i < n
        invariant
            s@ == text@,
            s.is_ascii(),
            n == text@.len(),
            start <= i <= n,
            digits == text@.subrange(start as int, n as int),
            digits == if signed(text@) {
                text@.subrange(1, text@.len() as int)
            } else {
                text@
            },
            all_digits(text@.subrange(start as int, i as int)),
            capped <= 8,
            capped == if number(text@.subrange(start as int, i as int)) < 8 {
                number(text@.subrange(start as int, i as int))
            } else {
                8
            },
        decreases n - i,
    {
        let c = s.get_ascii(i);
        if !(c >= 48 && c <= 57) {
            proof {
                assert(digits[i - start] == text@[i as int]);
                assert(!is_digit(digits[i - start]));
            }
            return None;
        }
        let digit: u32 = (c - 48) as u32;
        proof {
            let read = text@.subrange(start as int, i as int);
            let more = text@.subrange(start as int, i as int + 1);
            assert(more.drop_last() =~= read);
            assert(more.last() == text@[i as int]);
            assert forall|j: int| 0 <= j < more.len() implies is_digit(#[trigger] more[j]) by {
                if j < read.len() {
                    assert(more[j] == read[j]);
                }
            }
            lemma_number_bounds(read);
        }
        capped = if capped >= 8 {
            8
        } else {
            let grown: u32 = capped * 10 + digit;
            if grown >= 8 {
                8
            } else {
                grown
            }
        };
        i += 1;
    }
    if start == n {
        return None;
    }
    proof {
        lemma_number_bounds(digits);
    }
    if capped >= 8 || (negative && capped != 0) {
        None
    } else {
        Some(capped as i32)
    }
}

/// The fields of a payload as texts.
pub open spec fn texts(fields: Seq<String>) -> Seq<Seq<char>> {
    Seq::new(fields.len(), |i: int| fields[i]@)
}

/// The action `out` is what the client `ip` asked for with `request`: the
/// same kind of action, with the same cells or the same label and text, and
/// a selection carries the address of the client. A request that was
/// refused gives the reason instead.
pub open spec fn conveys(
    out: Result<Action, Rejection>,
    ip: Seq<char>,
    request: Result<Request, Rejection>,
) -> bool {
    match request {
        Err(reason) => out == Err::<Action, Rejection>(reason),
        Ok(Request::Select { cell }) => {
            &&& out matches Ok(Action::Select { addr, cell: chosen })
            &&& addr@ == ip
            &&& chosen@ == cell
        },
        Ok(Request::Move { from, to }) => {
            &&& out matches Ok(Action::Move { from: origin, to: target })
            &&& origin@ == from
            &&& target@ == to
        },
        Ok(Request::Msg { user, text }) => {
            &&& out matches Ok(Action::Msg { user: name, text: said })
            &&& name@ == user
            &&& said@ == text
        },
    }
}

/// Reads the cell that the two fields starting at `at` write down.
fn read_cell(fields: &Vec<String>, at: usize) -> (cell: Option<Cell>)
    requires
        at < usize::MAX,
    ensures
        match cell_at(texts(fields@), at as int) {
            Some(t) => cell matches Some(c) && c@ == t,
            None => cell is None,
        },
{
    if at + 1 < fields.len() {
        let row = parse_coordinate(&fields[at]);
        let col = parse_coordinate(&fields[at + 1]);
        match (row, col) {
            (Some(r), Some(c)) => Some(Cell::new(r, c)),
            _ => None,
        }
    } else {
        None
    }
}

impl Session {
    /// The name under which the messages of `ip` are shown: the seat it
    /// holds, White before Black, or "Spectator".
    pub fn label(&self, ip: &String) -> (name: String)
        ensures
            name@ == self@.label(ip@),
    {
        if self.seated(ip, Color::White) {
            String::from_str("White")
        } else if self.seated(ip, Color::Black) {
            String::from_str("Black")
        } else {
            String::from_str("Spectator")
        }
    }

    /// Turns the payload of the client `ip` into the action to hand to the
    /// relay, or says why the payload is to be dropped: a selection or move
    /// from a client that does not hold the seat of the side to move, an
    /// unknown variant, or fields that are missing or are no board
    /// coordinates.
    pub fn translate(&self, ip: &String, payload: &Payload) -> (out: Result<Action, Rejection>)
        ensures
            conveys(out, ip@, self@.request(ip@, payload@)),
    {
        proof {
            assert(payload@.fields =~= texts(payload.fields@));
        }
        if payload.variant == String::from_str("Select") {
            if !self.may_act(ip) {
                return Err(Rejection::OutOfTurn);
            }
            match read_cell(&payload.fields, 0) {
                Some(cell) => Ok(Action::Select { addr: ip.clone(), cell: cell }),
                None => Err(Rejection::DecodeError),
            }
        } else if payload.variant == String::from_str("Move") {
            if !self.may_act(ip) {
                return Err(Rejection::OutOfTurn);
            }
            match (read_cell(&payload.fields, 0), read_cell(&payload.fields, 2)) {
                (Some(from), Some(to)) => Ok(Action::Move { from: from, to: to }),
                _ => Err(Rejection::DecodeError),
            }
        } else if payload.variant == String::from_str("Msg") {
            if payload.fields.len() >= 2 {
                Ok(Action::Msg { user: self.label(ip), text: payload.fields[1].clone() })
            } else {
                Err(Rejection::DecodeError)
            }
        } else {
            Err(Rejection::DecodeError)
        }
    }
}

/// One connection: its address, and whether it has been closed.
#[derive(Debug)]
pub struct ClientSession {
    addr: String,
    closed: bool,
}

/// A connection as contracts see it.
pub struct ClientView {
    pub addr: Seq<char>,
    pub closed: bool,
}

impl View for ClientSession {
    type V = ClientView;

    closed spec fn view(&self) -> ClientView {
        ClientView { addr: self.addr@, closed: self.closed }
    }
}

impl ClientSession {
    /// Starts the connection of `addr`, with the action that announces it.
    pub fn open(addr: String) -> (started: (ClientSession, Action))
        ensures
            started.0@ == (ClientView { addr: addr@, closed: false }),
            started.1 matches Action::Connect { addr: announced } && announced@ == addr@,
    {
        let announced = addr.clone();
        (ClientSession { addr: addr, closed: false }, Action::Connect { addr: announced })
    }

    /// The address of the connection.
    pub fn addr(&self) -> (addr: &String)
        ensures
            addr@ == self@.addr,
    {
        &self.addr
    }

    /// Whether the connection has been closed.
    pub fn is_closed(&self) -> (closed: bool)
        ensures
            closed == self@.closed,
    {
        self.closed
    }

    /// A payload has arrived: the action to hand to the relay, or why the
    /// payload is dropped. A closed connection passes nothing on.
    pub fn receive(&self, session: &Session, payload: &Payload) -> (out: Result<Action, Rejection>)
        ensures
            if self@.closed {
                out == Err::<Action, Rejection>(Rejection::ConnectionClosed)
            } else {
                conveys(out, self@.addr, session@.request(self@.addr, payload@))
            },
    {
        if self.closed {
            Err(Rejection::ConnectionClosed)
        } else {
            session.translate(&self.addr, payload)
        }
    }

    /// The connection was closed or failed: the action that announces it,
    /// the first time, and nothing after that.
    pub fn close(&mut self) -> (out: Option<Action>)
        ensures
            final(self)@ == (ClientView { addr: old(self)@.addr, closed: true }),
            if old(self)@.closed {
                out is None
            } else {
                out matches Some(Action::Disconnect { addr }) && addr@ == old(self)@.addr
            },
    {
        if self.closed {
            None
        } else {
            self.closed = true;
            Some(Action::Disconnect { addr: self.addr.clone() })
        }
    }
}

} // verus!
