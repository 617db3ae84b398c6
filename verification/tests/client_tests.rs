use ziel::client::{check_handshake_reply, Client, Message, Step};
use ziel::logic::{AttackInfo, Position, Ship, ShipPlan, Ships};
use ziel::prot::{ClientMessage, Error as ProtError, ServerMessage};

fn pos(x: u8, y: u8) -> Position {
    Position::fromcoords(x, y).unwrap()
}

fn hship(x: u8, y: u8, len: u8) -> Ship {
    Ship::try_from(ShipPlan::Horizontal { pos: pos(x, y), len }).unwrap()
}

fn reference_fleet() -> Ships {
    Ships::try_from([hship(0, 0, 2), hship(0, 1, 3), hship(0, 2, 3), hship(0, 3, 4), hship(
        0, 4, 5,
    )])
    .unwrap()
}

#[test]
fn new_client_logs_the_connection() {
    let client = Client::new(reference_fleet());
    assert_eq!(client.outcome(), None);
    let info = client.info();
    assert_eq!(info.message.to_vec(), vec![Message::SuccessfullyConnected]);
    assert_eq!(info.selfhits.len(), 100);
    assert_eq!(info.opphits.len(), 100);
    assert!(info.selfhits.iter().all(|c| c.is_none()));
    assert!(info.opphits.iter().all(|c| c.is_none()));
}

#[test]
fn ship_request_is_answered_with_the_fleet() {
    let fleet = reference_fleet();
    let mut client = Client::new(fleet);
    let step = client.handle(ServerMessage::RequestShipPositions);
    assert_eq!(step, Step::Reply(ClientMessage::ShipPositions(fleet)));
}

#[test]
fn target_request_defers_to_the_caller() {
    let mut client = Client::new(reference_fleet());
    let step = client.handle(ServerMessage::RequestTarget);
    assert_eq!(step, Step::SelectTarget);
    assert_eq!(client.info().message.last(), Some(&Message::SelectTarget));
}

#[test]
fn notices_update_the_grids_and_the_log() {
    let mut client = Client::new(reference_fleet());

    let step = client.handle(ServerMessage::InformTargetSelection);
    assert_eq!(step, Step::Reply(ClientMessage::Acknowledge));
    assert_eq!(client.info().message.last(), Some(&Message::WaitForOpp));

    let step = client.handle(ServerMessage::InformTargetHitYou(pos(2, 3), false));
    assert_eq!(step, Step::Reply(ClientMessage::Acknowledge));
    assert_eq!(client.info().selfhits[3 * 10 + 2], Some(AttackInfo::Hit(false)));
    assert_eq!(client.info().message.last(), Some(&Message::ShipHit));

    let step = client.handle(ServerMessage::InformTargetHitYou(pos(2, 4), true));
    assert_eq!(step, Step::Reply(ClientMessage::Acknowledge));
    assert_eq!(client.info().message.last(), Some(&Message::ShipSunken));

    let step = client.handle(ServerMessage::InformTargetMissYou(pos(9, 9)));
    assert_eq!(step, Step::Reply(ClientMessage::Acknowledge));
    assert_eq!(client.info().selfhits[9 * 10 + 9], Some(AttackInfo::Miss));
    assert_eq!(client.info().message.last(), Some(&Message::ShipMissed));

    let step = client.handle(ServerMessage::InformTargetHitOpp(pos(0, 0), true));
    assert_eq!(step, Step::Reply(ClientMessage::Acknowledge));
    assert_eq!(client.info().opphits[0], Some(AttackInfo::Hit(true)));
    assert_eq!(client.info().message.last(), Some(&Message::OppShipSunken));

    let step = client.handle(ServerMessage::InformTargetMissOpp(pos(5, 0)));
    assert_eq!(step, Step::Reply(ClientMessage::Acknowledge));
    assert_eq!(client.info().opphits[5], Some(AttackInfo::Miss));
    assert_eq!(client.info().message.last(), Some(&Message::OppShipMissed));

    // grid updates do not leak into the other grid
    assert_eq!(client.info().opphits[3 * 10 + 2], None);
    assert_eq!(client.info().selfhits[5], None);
}

#[test]
fn victory_and_loss_decide_the_outcome() {
    let mut client = Client::new(reference_fleet());
    assert_eq!(client.handle(ServerMessage::InformVictory), Step::Reply(ClientMessage::Acknowledge));
    assert_eq!(client.outcome(), Some(true));

    let mut client = Client::new(reference_fleet());
    assert_eq!(client.handle(ServerMessage::InformLoss), Step::Reply(ClientMessage::Acknowledge));
    assert_eq!(client.outcome(), Some(false));
}

#[test]
fn termination_before_any_outcome_leaves_none() {
    let mut client = Client::new(reference_fleet());
    assert_eq!(client.handle(ServerMessage::TerminateConnection), Step::Terminate);
    assert_eq!(client.outcome(), None);
}

#[test]
fn invalid_is_acknowledged_and_handshake_is_unexpected() {
    let mut client = Client::new(reference_fleet());
    assert_eq!(client.handle(ServerMessage::Invalid), Step::Reply(ClientMessage::Acknowledge));
    assert_eq!(client.handle(ServerMessage::Handshake), Step::Unexpected);
}

#[test]
fn handshake_reply_must_be_a_handshake() {
    assert!(check_handshake_reply(&ServerMessage::Handshake).is_ok());
    assert_eq!(
        check_handshake_reply(&ServerMessage::Invalid).unwrap_err(),
        ProtError::UnsuccessfulHandshake
    );
    assert_eq!(
        check_handshake_reply(&ServerMessage::RequestTarget).unwrap_err(),
        ProtError::UnsuccessfulHandshake
    );
}
