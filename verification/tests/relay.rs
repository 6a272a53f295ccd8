use chess_relay::board::{Board, Cell, Color, PieceType};
use chess_relay::session::{Action, Dispatch, Rejection, Session};

fn addr(text: &str) -> String {
    String::from(text)
}

fn seated_session() -> Session {
    let mut session = Session::new();
    assert_eq!(session.join(&addr("10.0.0.1:5000")), Some(Color::White));
    assert_eq!(session.join(&addr("10.0.0.2:5000")), Some(Color::Black));
    session
}

fn sorted(cells: &[Cell]) -> Vec<(i32, i32)> {
    let mut pairs: Vec<(i32, i32)> = cells.iter().map(|c| (c.row, c.col)).collect();
    pairs.sort();
    pairs
}

fn play(session: &mut Session, from: (i32, i32), to: (i32, i32)) -> Dispatch {
    session.handle(Action::Move { from: Cell::new(from.0, from.1), to: Cell::new(to.0, to.1) })
}

fn dropped(out: &Dispatch, why: Rejection) -> bool {
    matches!(out, Dispatch::Dropped { reason } if *reason == why)
}

fn same_board(a: &Board, b: &Board) -> bool {
    a.grid() == b.grid() && a.active_color() == b.active_color()
}

#[test]
fn the_first_two_connections_take_the_seats() {
    let mut session = Session::new();
    assert_eq!(session.join(&addr("a")), Some(Color::White));
    assert_eq!(session.join(&addr("b")), Some(Color::Black));
    assert_eq!(session.join(&addr("c")), None);
    assert!(session.seated(&addr("a"), Color::White));
    assert!(!session.seated(&addr("a"), Color::Black));
    assert!(session.seated(&addr("b"), Color::Black));
    assert!(!session.seated(&addr("c"), Color::White));
    assert!(!session.seated(&addr("c"), Color::Black));
    assert!(session.is_connected(&addr("c")));
    assert!(!session.is_connected(&addr("d")));
}

#[test]
fn a_new_session_starts_with_white_to_move() {
    let session = Session::new();
    assert!(session.board().white_turn());
    assert!(same_board(session.board(), &Board::new()));
    assert!(!session.may_act(&addr("a")));
}

#[test]
fn only_the_seat_of_the_side_to_move_may_act() {
    let mut session = seated_session();
    assert!(session.may_act(&addr("10.0.0.1:5000")));
    assert!(!session.may_act(&addr("10.0.0.2:5000")));
    assert!(!session.may_act(&addr("10.0.0.3:5000")));
    play(&mut session, (6, 4), (4, 4));
    assert!(!session.may_act(&addr("10.0.0.1:5000")));
    assert!(session.may_act(&addr("10.0.0.2:5000")));
}

#[test]
fn a_selection_is_answered_to_the_sender_with_the_legal_moves() {
    let mut session = seated_session();
    let out = session.handle(Action::Select { addr: addr("10.0.0.1:5000"), cell: Cell::new(6, 4) });
    match &out {
        Dispatch::Unicast { addr: to, action: Action::Moves { cells } } => {
            assert_eq!(to, "10.0.0.1:5000");
            assert_eq!(sorted(cells), vec![(4, 4), (5, 4)]);
        }
        other => panic!("unexpected dispatch {:?}", other),
    }
    assert_eq!(session.recipients(&out), vec![addr("10.0.0.1:5000")]);
    assert!(same_board(session.board(), &Board::new()));
}

#[test]
fn a_selection_out_of_turn_is_not_answered() {
    let mut session = seated_session();
    let out = session.handle(Action::Select { addr: addr("10.0.0.2:5000"), cell: Cell::new(1, 4) });
    assert!(dropped(&out, Rejection::OutOfTurn));
    let out = session.handle(Action::Select { addr: addr("10.0.0.2:5000"), cell: Cell::new(6, 4) });
    assert!(dropped(&out, Rejection::OutOfTurn));
    assert!(session.recipients(&out).is_empty());
    assert!(same_board(session.board(), &Board::new()));
}

#[test]
fn a_selection_of_an_empty_cell_or_of_the_other_side_is_not_answered() {
    let mut session = seated_session();
    let white = addr("10.0.0.1:5000");
    for cell in [Cell::new(4, 4), Cell::new(1, 4), Cell::new(8, 0), Cell::new(0, -1)] {
        let out = session.handle(Action::Select { addr: white.clone(), cell });
        assert!(dropped(&out, Rejection::IllegalSelection));
    }
    let out = session.handle(Action::Select { addr: addr("10.0.0.9:1"), cell: Cell::new(6, 4) });
    assert!(dropped(&out, Rejection::OutOfTurn));
}

#[test]
fn a_selected_piece_without_legal_moves_is_answered_with_none() {
    let mut session = seated_session();
    let out = session.handle(Action::Select { addr: addr("10.0.0.1:5000"), cell: Cell::new(7, 0) });
    match out {
        Dispatch::Unicast { action: Action::Moves { cells }, .. } => assert!(cells.is_empty()),
        other => panic!("unexpected dispatch {:?}", other),
    }
}

#[test]
fn an_accepted_move_passes_the_turn_and_goes_to_everyone() {
    let mut session = seated_session();
    session.join(&addr("10.0.0.3:5000"));
    let out = play(&mut session, (6, 4), (4, 4));
    match &out {
        Dispatch::Broadcast { action: Action::Board { board, check, checkmate } } => {
            assert!(!*check);
            assert!(!*checkmate);
            assert!(!board.white_turn());
            assert!(same_board(board, session.board()));
            let moved = board.get_piece(&Cell::new(4, 4)).expect("the pawn");
            assert_eq!(moved.piece_type, PieceType::Pawn);
            assert_eq!(moved.color, Color::White);
            assert_eq!(moved.cell, Cell::new(4, 4));
            assert_eq!(board.get_piece(&Cell::new(6, 4)), None);
        }
        other => panic!("unexpected dispatch {:?}", other),
    }
    let mut to = session.recipients(&out);
    to.sort();
    assert_eq!(to, vec![addr("10.0.0.1:5000"), addr("10.0.0.2:5000"), addr("10.0.0.3:5000")]);
    assert!(!session.board().white_turn());
}

#[test]
fn the_turn_changes_with_accepted_moves_only() {
    let mut session = seated_session();
    assert_eq!(session.board().active_color(), Color::White);
    // not a move of the pawn
    assert!(dropped(&play(&mut session, (6, 4), (3, 4)), Rejection::InvalidMoveSubmission));
    assert_eq!(session.board().active_color(), Color::White);
    // a piece of the side that is not to move
    assert!(dropped(&play(&mut session, (1, 4), (3, 4)), Rejection::InvalidMoveSubmission));
    assert_eq!(session.board().active_color(), Color::White);
    // an empty cell, and cells outside the board
    assert!(dropped(&play(&mut session, (4, 4), (3, 4)), Rejection::InvalidMoveSubmission));
    assert!(dropped(&play(&mut session, (6, 4), (8, 4)), Rejection::InvalidMoveSubmission));
    assert!(dropped(&play(&mut session, (-1, 4), (5, 4)), Rejection::InvalidMoveSubmission));
    assert!(same_board(session.board(), &Board::new()));
    session.handle(Action::Msg { user: addr("White"), text: addr("hello") });
    session.handle(Action::Select { addr: addr("10.0.0.1:5000"), cell: Cell::new(6, 4) });
    session.handle(Action::Connect { addr: addr("10.0.0.7:1") });
    session.handle(Action::Disconnect { addr: addr("10.0.0.2:5000") });
    session.join(&addr("10.0.0.8:1"));
    assert_eq!(session.board().active_color(), Color::White);
    assert!(matches!(play(&mut session, (6, 4), (5, 4)), Dispatch::Broadcast { .. }));
    assert_eq!(session.board().active_color(), Color::Black);
    assert!(matches!(play(&mut session, (1, 0), (3, 0)), Dispatch::Broadcast { .. }));
    assert_eq!(session.board().active_color(), Color::White);
}

#[test]
fn a_move_that_exposes_the_own_king_is_refused() {
    let mut session = seated_session();
    assert!(matches!(play(&mut session, (6, 5), (5, 5)), Dispatch::Broadcast { .. }));
    assert!(matches!(play(&mut session, (1, 4), (2, 4)), Dispatch::Broadcast { .. }));
    assert!(matches!(play(&mut session, (6, 0), (5, 0)), Dispatch::Broadcast { .. }));
    // the black queen gives check from the edge
    match play(&mut session, (0, 3), (4, 7)) {
        Dispatch::Broadcast { action: Action::Board { check, checkmate, .. } } => {
            assert!(check);
            assert!(!checkmate);
        }
        other => panic!("unexpected dispatch {:?}", other),
    }
    let before = session.board().duplicate();
    // White must answer the check: any other move is refused
    assert!(dropped(&play(&mut session, (6, 1), (5, 1)), Rejection::InvalidMoveSubmission));
    assert!(same_board(session.board(), &before));
    assert!(session.board().white_turn());
    assert!(matches!(play(&mut session, (6, 6), (5, 6)), Dispatch::Broadcast { .. }));
    assert!(!session.board().white_turn());
}

#[test]
fn the_shortest_mate_is_reported() {
    let mut session = seated_session();
    assert!(matches!(play(&mut session, (6, 5), (5, 5)), Dispatch::Broadcast { .. }));
    assert!(matches!(play(&mut session, (1, 4), (3, 4)), Dispatch::Broadcast { .. }));
    assert!(matches!(play(&mut session, (6, 6), (4, 6)), Dispatch::Broadcast { .. }));
    match play(&mut session, (0, 3), (4, 7)) {
        Dispatch::Broadcast { action: Action::Board { board, check, checkmate } } => {
            assert!(check);
            assert!(checkmate);
            assert!(board.white_turn());
            assert!(board.is_checkmate(Color::White));
        }
        other => panic!("unexpected dispatch {:?}", other),
    }
    // the mated side has no move left
    for cell in session.board().pieces_of(Color::White) {
        assert!(session.board().legal_moves(&cell).is_empty());
    }
}

#[test]
fn messages_and_connects_go_to_everyone_as_they_are() {
    let mut session = seated_session();
    match session.handle(Action::Msg { user: addr("Spectator"), text: addr("good luck") }) {
        Dispatch::Broadcast { action: Action::Msg { user, text } } => {
            assert_eq!(user, "Spectator");
            assert_eq!(text, "good luck");
        }
        other => panic!("unexpected dispatch {:?}", other),
    }
    match session.handle(Action::Connect { addr: addr("10.0.0.5:9") }) {
        Dispatch::Broadcast { action: Action::Connect { addr } } => assert_eq!(addr, "10.0.0.5:9"),
        other => panic!("unexpected dispatch {:?}", other),
    }
    match session.handle(Action::Moves { cells: vec![Cell::new(1, 2)] }) {
        Dispatch::Broadcast { action: Action::Moves { cells } } => {
            assert_eq!(cells, vec![Cell::new(1, 2)])
        }
        other => panic!("unexpected dispatch {:?}", other),
    }
    match session.handle(Action::Board { board: Board::new(), check: true, checkmate: false }) {
        Dispatch::Broadcast { action: Action::Board { check, checkmate, .. } } => {
            assert!(check);
            assert!(!checkmate);
        }
        other => panic!("unexpected dispatch {:?}", other),
    }
    assert!(same_board(session.board(), &Board::new()));
}

#[test]
fn a_disconnect_leaves_the_clients_but_not_the_seat() {
    let mut session = seated_session();
    session.join(&addr("10.0.0.3:5000"));
    let out = session.handle(Action::Disconnect { addr: addr("10.0.0.1:5000") });
    match &out {
        Dispatch::Broadcast { action: Action::Disconnect { addr } } => {
            assert_eq!(addr, "10.0.0.1:5000")
        }
        other => panic!("unexpected dispatch {:?}", other),
    }
    let mut to = session.recipients(&out);
    to.sort();
    assert_eq!(to, vec![addr("10.0.0.2:5000"), addr("10.0.0.3:5000")]);
    assert!(!session.is_connected(&addr("10.0.0.1:5000")));
    assert!(session.seated(&addr("10.0.0.1:5000"), Color::White));
    assert!(session.may_act(&addr("10.0.0.1:5000")));
    assert!(same_board(session.board(), &Board::new()));
    // a later connection finds both seats taken
    assert_eq!(session.join(&addr("10.0.0.4:5000")), None);
    // a disconnect of an unknown address changes nothing
    let out = session.handle(Action::Disconnect { addr: addr("10.0.0.9:5000") });
    assert_eq!(session.recipients(&out).len(), 3);
}

#[test]
fn an_answer_to_a_client_that_has_left_goes_nowhere() {
    let mut session = seated_session();
    session.handle(Action::Disconnect { addr: addr("10.0.0.1:5000") });
    let out = session.handle(Action::Select { addr: addr("10.0.0.1:5000"), cell: Cell::new(6, 4) });
    assert!(matches!(out, Dispatch::Unicast { .. }));
    assert!(session.recipients(&out).is_empty());
}

#[test]
fn joining_twice_lists_a_client_once() {
    let mut session = Session::new();
    session.join(&addr("a"));
    session.join(&addr("a"));
    let out = session.handle(Action::Connect { addr: addr("a") });
    assert_eq!(session.recipients(&out), vec![addr("a")]);
    assert!(session.seated(&addr("a"), Color::White));
    assert!(session.seated(&addr("a"), Color::Black));
}
