//! A two-player chess engine with a turn-synchronised relay protocol.
//!
//! * `rules` states the rules of movement, check and checkmate over a
//!   mathematical picture of the board, the `Position`.
//! * `board` holds the cells, the pieces and the board itself; `moves`
//!   generates the moves of a piece by its movement pattern; `check` decides
//!   check, legal moves and checkmate.
//! * `session` is the relay: the one shared board, the two seats and the
//!   connected clients, and what becomes of each incoming action.
//! * `client` is the client side: what a connection's messages become before
//!   they reach the relay.
//! * `laws` states what holds of the board and the session in every state.
//!
//! The library decides and computes; it neither reads nor sends anything.

pub mod board;
pub mod check;
pub mod client;
pub mod laws;
pub mod moves;
pub mod rules;
pub mod session;
