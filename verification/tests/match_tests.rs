//! Drives a complete match through every layer the crate owns: the
//! coordinator's state machine, the middleware's command translation, the
//! frame codec on both sides, and the two client state machines.  Only the
//! sockets and channels of a real deployment are missing; every byte still
//! travels through the framing and both vocabularies.

use ziel::client::{Client, Step};
use ziel::logic::{Position, Ship, ShipPlan, Ships};
use ziel::prot::{u32_from_le_bytes, ClientMessage, RawMessage, ServerMessage};
use ziel::server::{
    check_handshake, check_success, classify_reply, command_message, extract_ships,
    extract_target, inform_commands, CommandRequest, CommandResult, Error, Instance,
};
use ziel::prot::Error as ProtError;

fn pos(x: u8, y: u8) -> Position {
    Position::fromcoords(x, y).unwrap()
}

fn hship(x: u8, y: u8, len: u8) -> Ship {
    Ship::try_from(ShipPlan::Horizontal { pos: pos(x, y), len }).unwrap()
}

fn reference_fleet() -> Ships {
    Ships::try_from([hship(0, 0, 2), hship(0, 1, 3), hship(0, 2, 3), hship(0, 3, 4), hship(
        0, 4, 5,
    )])
    .unwrap()
}

/// Moves one frame across the simulated wire: renders it, splits the header
/// off again, and hands the body to the receiving side's decoder.
fn over_the_wire(raw: RawMessage) -> RawMessage {
    let bytes = raw.frame_bytes();
    let typemarker = bytes[0];
    let len = u32_from_le_bytes(&[bytes[1], bytes[2], bytes[3], bytes[4]]) as usize;
    assert_eq!(bytes.len(), 5 + len);
    RawMessage { typemarker, body: bytes[5..].to_vec() }
}

/// One request/response exchange as the middleware performs it for `cmd`,
/// with the peer played by `client`.  `next_shot` is the player's firing
/// strategy: the cells in row-major order.
fn exchange(cmd: CommandRequest, client: &mut Client, next_shot: &mut u8) -> CommandResult {
    if matches!(cmd, CommandRequest::Handshake) {
        // the peer opens; the middleware reads before it writes
        let opening = ClientMessage::try_from(over_the_wire(ClientMessage::Handshake.to_raw()))
            .unwrap();
        let res = classify_reply(&cmd, opening);
        if matches!(res, CommandResult::Success) {
            let reply = ServerMessage::try_from(over_the_wire(command_message(&cmd).to_raw()))
                .unwrap();
            assert!(matches!(reply, ServerMessage::Handshake));
        }
        return res;
    }
    let request = ServerMessage::try_from(over_the_wire(command_message(&cmd).to_raw())).unwrap();
    let reply = match client.handle(request) {
        Step::Reply(m) => m,
        Step::SelectTarget => {
            let cell = *next_shot;
            *next_shot += 1;
            ClientMessage::Target(pos(cell % 10, cell / 10))
        }
        Step::Terminate => ClientMessage::Acknowledge,
        Step::Unexpected => panic!("client refused the request"),
    };
    classify_reply(&cmd, ClientMessage::try_from(over_the_wire(reply.to_raw())).unwrap())
}

#[test]
fn full_match_reaches_exactly_one_victory_and_one_loss() {
    let mut clients = [Client::new(reference_fleet()), Client::new(reference_fleet())];
    let mut shots: [u8; 2] = [0, 0];
    let mut victories: [usize; 2] = [0, 0];
    let mut losses: [usize; 2] = [0, 0];
    let mut terminations: [usize; 2] = [0, 0];

    for i in 0..2 {
        let res = exchange(CommandRequest::Handshake, &mut clients[i], &mut shots[i]);
        check_handshake(&res).unwrap();
    }

    let fleet0 = extract_ships(exchange(CommandRequest::RequestShips, &mut clients[0],
        &mut shots[0]))
        .unwrap();
    let fleet1 = extract_ships(exchange(CommandRequest::RequestShips, &mut clients[1],
        &mut shots[1]))
        .unwrap();
    let mut inst = Instance::new(fleet0, fleet1);

    let mut turn_no: usize = 0;
    loop {
        let active = inst.active();
        // the turn counter's parity selects who acts
        assert_eq!(active, turn_no % 2);
        let passive = 1 - active;

        let res = exchange(CommandRequest::RequestTarget, &mut clients[active],
            &mut shots[active]);
        let target = extract_target(res).unwrap();
        let res = exchange(CommandRequest::InformTargetSelection, &mut clients[passive],
            &mut shots[passive]);
        check_success(&CommandRequest::InformTargetSelection, res).unwrap();

        let (info, finished) = inst.apply_target(target).unwrap();
        let (to_active, to_passive) = inform_commands(target, info);
        let res = exchange(to_active, &mut clients[active], &mut shots[active]);
        check_success(&to_active, res).unwrap();
        let res = exchange(to_passive, &mut clients[passive], &mut shots[passive]);
        check_success(&to_passive, res).unwrap();

        if finished {
            let res = exchange(CommandRequest::InformVictory, &mut clients[active],
                &mut shots[active]);
            check_success(&CommandRequest::InformVictory, res).unwrap();
            victories[active] += 1;
            let res = exchange(CommandRequest::InformLoss, &mut clients[passive],
                &mut shots[passive]);
            check_success(&CommandRequest::InformLoss, res).unwrap();
            losses[passive] += 1;
            for i in 0..2 {
                let res = exchange(CommandRequest::TerminateConnection, &mut clients[i],
                    &mut shots[i]);
                check_success(&CommandRequest::TerminateConnection, res).unwrap();
                terminations[i] += 1;
            }
            break;
        }
        turn_no += 1;
        assert!(turn_no <= 200, "match did not finish");
    }

    // player 0 acts first and therefore exhausts the opponent's 17 ship
    // cells first
    assert_eq!(victories, [1, 0]);
    assert_eq!(losses, [0, 1]);
    assert_eq!(terminations, [1, 1]);
    assert_eq!(clients[0].outcome(), Some(true));
    assert_eq!(clients[1].outcome(), Some(false));
    assert!(inst.board_ref(1).allsunken());
    assert!(!inst.board_ref(0).allsunken());
}

#[test]
fn malformed_target_frame_fails_the_exchange_cleanly() {
    // a frame with marker 101 and an empty body arrives where the middleware
    // expects a target: decoding fails with a protocol error, no panic
    let outcome = ClientMessage::try_from(RawMessage { typemarker: 101, body: vec![] });
    let err = outcome.unwrap_err();
    assert!(matches!(err, ProtError::Message { typemarker: 101, sizemarker: 0, .. }));
}

#[test]
fn refused_handshake_aborts_before_any_outcome() {
    // the peer answers the handshake with an acknowledge instead: the match
    // aborts with a handshake error and no victory or loss is ever issued
    let mut client = Client::new(reference_fleet());
    let opening = ClientMessage::try_from(over_the_wire(ClientMessage::Acknowledge.to_raw()))
        .unwrap();
    let res = classify_reply(&CommandRequest::Handshake, opening);
    assert_eq!(res, CommandResult::Invalid);
    assert_eq!(
        check_handshake(&res).unwrap_err(),
        Error::Protocol(ProtError::UnsuccessfulHandshake)
    );
    assert_eq!(client.outcome(), None);
    assert_eq!(client.info().message.len(), 1);
}
