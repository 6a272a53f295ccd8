use chess_relay::board::{Cell, Color};
use chess_relay::client::{parse_coordinate, ClientSession, Payload};
use chess_relay::session::{Action, Dispatch, Rejection, Session};

fn text(s: &str) -> String {
    String::from(s)
}

fn payload(variant: &str, fields: &[&str]) -> Payload {
    Payload { variant: text(variant), fields: fields.iter().map(|f| text(f)).collect() }
}

fn refused(out: Result<Action, Rejection>, why: Rejection) -> bool {
    matches!(out, Err(reason) if reason == why)
}

fn session() -> Session {
    let mut session = Session::new();
    session.join(&text("white:1"));
    session.join(&text("black:2"));
    session.join(&text("guest:3"));
    session
}

#[test]
fn coordinates_are_decimal_numbers_from_zero_to_seven() {
    for (i, digit) in ["0", "1", "2", "3", "4", "5", "6", "7"].iter().enumerate() {
        assert_eq!(parse_coordinate(&text(digit)), Some(i as i32));
    }
    assert_eq!(parse_coordinate(&text("8")), None);
    assert_eq!(parse_coordinate(&text("9")), None);
    assert_eq!(parse_coordinate(&text("10")), None);
    assert_eq!(parse_coordinate(&text("-1")), None);
    assert_eq!(parse_coordinate(&text("70")), None);
    assert_eq!(parse_coordinate(&text("4294967296")), None);
    assert_eq!(parse_coordinate(&text("99999999999999999999999999")), None);
}

#[test]
fn coordinates_may_carry_a_sign_and_leading_zeros() {
    assert_eq!(parse_coordinate(&text("+3")), Some(3));
    assert_eq!(parse_coordinate(&text("007")), Some(7));
    assert_eq!(parse_coordinate(&text("-0")), Some(0));
    assert_eq!(parse_coordinate(&text("+000")), Some(0));
    assert_eq!(parse_coordinate(&text("0000000000000000000000000005")), Some(5));
    assert_eq!(parse_coordinate(&text("-3")), None);
    assert_eq!(parse_coordinate(&text("-08")), None);
}

#[test]
fn anything_else_is_no_coordinate() {
    for bad in ["", "+", "-", " 3", "3 ", "3.0", "0x3", "three", "--3", "+-3", "3a", "٣", "1e0"] {
        assert_eq!(parse_coordinate(&text(bad)), None);
    }
}

#[test]
fn a_selection_in_turn_is_passed_on_with_the_address() {
    let session = session();
    match session.translate(&text("white:1"), &payload("Select", &["6", "4"])) {
        Ok(Action::Select { addr, cell }) => {
            assert_eq!(addr, "white:1");
            assert_eq!(cell, Cell::new(6, 4));
        }
        other => panic!("unexpected action {:?}", other),
    }
}

#[test]
fn a_selection_or_move_out_of_turn_is_dropped() {
    let session = session();
    for ip in ["black:2", "guest:3", "nobody:4"] {
        for request in [
            payload("Select", &["1", "4"]),
            payload("Select", &["6", "4"]),
            payload("Move", &["1", "4", "3", "4"]),
            payload("Move", &["6", "4", "4", "4"]),
            payload("Select", &["nine", "4"]),
            payload("Move", &[]),
        ] {
            assert!(refused(session.translate(&text(ip), &request), Rejection::OutOfTurn));
        }
    }
}

#[test]
fn out_of_turn_requests_have_no_effect_on_the_game() {
    let mut game = session();
    let before = game.board().grid();
    let asked = game.translate(&text("black:2"), &payload("Move", &["1", "4", "3", "4"]));
    assert!(refused(asked, Rejection::OutOfTurn));
    assert_eq!(game.board().grid(), before);
    assert!(game.board().white_turn());
    // the relay would not answer such a selection either
    let out = game.handle(Action::Select { addr: text("black:2"), cell: Cell::new(1, 4) });
    assert!(matches!(out, Dispatch::Dropped { reason: Rejection::OutOfTurn }));
}

#[test]
fn the_turn_decides_who_is_passed_on() {
    let mut game = session();
    let moved = game.translate(&text("white:1"), &payload("Move", &["6", "4", "4", "4"]));
    match moved {
        Ok(Action::Move { from, to }) => {
            assert_eq!(from, Cell::new(6, 4));
            assert_eq!(to, Cell::new(4, 4));
            assert!(matches!(
                game.handle(Action::Move { from, to }),
                Dispatch::Broadcast { .. }
            ));
        }
        other => panic!("unexpected action {:?}", other),
    }
    assert!(refused(
        game.translate(&text("white:1"), &payload("Select", &["6", "0"])),
        Rejection::OutOfTurn
    ));
    assert!(game.translate(&text("black:2"), &payload("Select", &["1", "0"])).is_ok());
}

#[test]
fn fields_that_are_no_board_cells_are_dropped() {
    let session = session();
    let ip = text("white:1");
    for fields in [
        vec!["8", "0"],
        vec!["0", "8"],
        vec!["-1", "0"],
        vec!["a", "0"],
        vec!["", "0"],
        vec!["6"],
        vec![],
    ] {
        assert!(refused(session.translate(&ip, &payload("Select", &fields)), Rejection::DecodeError));
    }
    for fields in [
        vec!["6", "4", "4"],
        vec!["6", "4", "4", "8"],
        vec!["6", "4", "x", "4"],
        vec!["9", "4", "4", "4"],
        vec![],
    ] {
        assert!(refused(session.translate(&ip, &payload("Move", &fields)), Rejection::DecodeError));
    }
}

#[test]
fn further_fields_are_ignored() {
    let session = session();
    let ip = text("white:1");
    assert!(matches!(
        session.translate(&ip, &payload("Select", &["6", "4", "junk"])),
        Ok(Action::Select { .. })
    ));
    assert!(matches!(
        session.translate(&ip, &payload("Move", &["6", "4", "5", "4", "junk"])),
        Ok(Action::Move { .. })
    ));
}

#[test]
fn a_message_is_passed_on_under_the_label_of_the_sender() {
    let session = session();
    for (ip, label) in
        [("white:1", "White"), ("black:2", "Black"), ("guest:3", "Spectator"), ("x", "Spectator")]
    {
        match session.translate(&text(ip), &payload("Msg", &["someone", "hello there"])) {
            Ok(Action::Msg { user, text }) => {
                assert_eq!(user, label);
                assert_eq!(text, "hello there");
            }
            other => panic!("unexpected action {:?}", other),
        }
        assert_eq!(session.label(&text(ip)), label);
    }
    for fields in [vec!["someone"], vec![]] {
        assert!(refused(
            session.translate(&text("white:1"), &payload("Msg", &fields)),
            Rejection::DecodeError
        ));
    }
}

#[test]
fn unknown_variants_are_dropped() {
    let session = session();
    let ip = text("white:1");
    for variant in ["Connect", "Disconnect", "Board", "Moves", "select", "", "Select "] {
        assert!(refused(
            session.translate(&ip, &payload(variant, &["6", "4", "4", "4"])),
            Rejection::DecodeError
        ));
    }
}

#[test]
fn a_connection_announces_itself_and_its_end_once() {
    let (mut client, hello) = ClientSession::open(text("white:1"));
    match hello {
        Action::Connect { addr } => assert_eq!(addr, "white:1"),
        other => panic!("unexpected action {:?}", other),
    }
    assert_eq!(client.addr(), "white:1");
    assert!(!client.is_closed());
    match client.close() {
        Some(Action::Disconnect { addr }) => assert_eq!(addr, "white:1"),
        other => panic!("unexpected action {:?}", other),
    }
    assert!(client.is_closed());
    assert!(client.close().is_none());
    assert!(client.close().is_none());
}

#[test]
fn a_connection_passes_on_what_its_address_may_ask() {
    let mut game = Session::new();
    let (mut white, _) = ClientSession::open(text("white:1"));
    let (black, _) = ClientSession::open(text("black:2"));
    assert_eq!(game.join(white.addr()), Some(Color::White));
    assert_eq!(game.join(black.addr()), Some(Color::Black));
    assert!(matches!(
        white.receive(&game, &payload("Select", &["6", "4"])),
        Ok(Action::Select { .. })
    ));
    assert!(refused(black.receive(&game, &payload("Select", &["1", "4"])), Rejection::OutOfTurn));
    assert!(matches!(
        black.receive(&game, &payload("Msg", &["b", "hi"])),
        Ok(Action::Msg { .. })
    ));
    white.close();
    assert!(refused(
        white.receive(&game, &payload("Select", &["6", "4"])),
        Rejection::ConnectionClosed
    ));
    assert!(refused(
        white.receive(&game, &payload("Msg", &["w", "bye"])),
        Rejection::ConnectionClosed
    ));
}
