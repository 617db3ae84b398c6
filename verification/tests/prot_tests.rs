use ziel::logic::{Position, Ship, ShipPlan, Ships};
use ziel::prot::{encode_len, u32_from_le_bytes, ClientMessage, Error, RawMessage, ServerMessage};

fn pos(x: u8, y: u8) -> Position {
    Position::fromcoords(x, y).unwrap()
}

fn hship(x: u8, y: u8, len: u8) -> Ship {
    Ship::try_from(ShipPlan::Horizontal { pos: pos(x, y), len }).unwrap()
}

fn reference_fleet() -> Ships {
    Ships::try_from([hship(0, 0, 2), hship(0, 1, 3), hship(0, 2, 3), hship(0, 3, 4), hship(
        0, 4, 5,
    )])
    .unwrap()
}

#[test]
fn client_message_round_trips() {
    let messages = vec![
        ClientMessage::Handshake,
        ClientMessage::Acknowledge,
        ClientMessage::ShipPositions(reference_fleet()),
        ClientMessage::Target(pos(3, 7)),
    ];
    for m in messages {
        assert_eq!(ClientMessage::try_from(m.to_raw()).unwrap(), m);
    }
}

#[test]
fn server_message_round_trips() {
    let messages = vec![
        ServerMessage::Handshake,
        ServerMessage::Invalid,
        ServerMessage::RequestShipPositions,
        ServerMessage::RequestTarget,
        ServerMessage::InformTargetSelection,
        ServerMessage::InformTargetHitYou(pos(1, 2), false),
        ServerMessage::InformTargetHitYou(pos(1, 2), true),
        ServerMessage::InformTargetMissYou(pos(9, 0)),
        ServerMessage::InformTargetHitOpp(pos(0, 9), true),
        ServerMessage::InformTargetMissOpp(pos(5, 5)),
        ServerMessage::InformVictory,
        ServerMessage::InformLoss,
        ServerMessage::TerminateConnection,
    ];
    for m in messages {
        assert_eq!(ServerMessage::try_from(m.to_raw()).unwrap(), m);
    }
}

#[test]
fn wire_bodies_match_the_protocol_table() {
    let raw = ClientMessage::Handshake.to_raw();
    assert_eq!(raw.typemarker, 1);
    assert_eq!(raw.body, b"HELO".to_vec());

    let raw = ClientMessage::Acknowledge.to_raw();
    assert_eq!(raw.typemarker, 2);
    assert_eq!(raw.body, b"ACK".to_vec());

    let raw = ServerMessage::Invalid.to_raw();
    assert_eq!(raw.typemarker, 3);
    assert_eq!(raw.body, b"INVALID".to_vec());

    let raw = ServerMessage::TerminateConnection.to_raw();
    assert_eq!(raw.typemarker, 4);
    assert_eq!(raw.body, b"TERM".to_vec());

    let raw = ServerMessage::RequestShipPositions.to_raw();
    assert_eq!(raw.typemarker, 100);
    assert_eq!(raw.body, b"REQ SHIPP".to_vec());

    let raw = ServerMessage::RequestTarget.to_raw();
    assert_eq!(raw.typemarker, 101);
    assert_eq!(raw.body, b"TARG".to_vec());

    let raw = ServerMessage::InformTargetSelection.to_raw();
    assert_eq!(raw.typemarker, 150);
    assert_eq!(raw.body, b"INFO TARG".to_vec());

    let raw = ServerMessage::InformVictory.to_raw();
    assert_eq!(raw.typemarker, 153);
    assert_eq!(raw.body, b"VICTORY".to_vec());

    let raw = ServerMessage::InformLoss.to_raw();
    assert_eq!(raw.typemarker, 154);
    assert_eq!(raw.body, b"LOSS".to_vec());

    let raw = ServerMessage::InformTargetHitYou(pos(2, 3), true).to_raw();
    assert_eq!(raw.typemarker, 151);
    assert_eq!(raw.body, vec![0, 2 | (3 << 4), 1]);

    let raw = ServerMessage::InformTargetMissOpp(pos(4, 1)).to_raw();
    assert_eq!(raw.typemarker, 152);
    assert_eq!(raw.body, vec![1, 4 | (1 << 4)]);

    let raw = ClientMessage::Target(pos(7, 7)).to_raw();
    assert_eq!(raw.typemarker, 101);
    assert_eq!(raw.body, vec![7 | (7 << 4)]);

    let raw = ClientMessage::ShipPositions(reference_fleet()).to_raw();
    assert_eq!(raw.typemarker, 100);
    assert_eq!(raw.body, vec![
        1, 0, 2,
        1, 16, 3,
        1, 32, 3,
        1, 48, 4,
        1, 64, 5,
    ]);
}

#[test]
fn frame_bytes_layout() {
    let raw = RawMessage { typemarker: 5, body: vec![1, 2, 3] };
    assert_eq!(raw.frame_bytes(), vec![5, 3, 0, 0, 0, 1, 2, 3]);
}

#[test]
fn length_prefix_round_trip() {
    assert_eq!(encode_len(0x01020304), vec![4, 3, 2, 1]);
    assert_eq!(u32_from_le_bytes(&[0x78, 0x56, 0x34, 0x12]), 0x12345678);
    for n in [0u32, 1, 15, 255, 256, 65536, u32::MAX] {
        let b = encode_len(n);
        assert_eq!(u32_from_le_bytes(&[b[0], b[1], b[2], b[3]]), n);
    }
}

#[test]
fn empty_target_frame_is_a_protocol_error() {
    // marker 101 with body length 0: rejected, never a panic
    let r = ClientMessage::try_from(RawMessage { typemarker: 101, body: vec![] });
    match r.unwrap_err() {
        Error::Message { typemarker, sizemarker, body } => {
            assert_eq!(typemarker, 101);
            assert_eq!(sizemarker, 0);
            assert!(body.is_empty());
        }
        other => panic!("unexpected error {:?}", other),
    }
}

#[test]
fn off_grid_target_byte_is_rejected() {
    // byte 10 decodes to x == 10, off the grid
    let r = ClientMessage::try_from(RawMessage { typemarker: 101, body: vec![10] });
    assert!(r.is_err());
    // byte 9 decodes to (9, 0)
    let r = ClientMessage::try_from(RawMessage { typemarker: 101, body: vec![9] });
    assert_eq!(r.unwrap(), ClientMessage::Target(pos(9, 0)));
}

#[test]
fn unknown_marker_is_rejected() {
    let r = ClientMessage::try_from(RawMessage { typemarker: 99, body: vec![] });
    assert!(r.is_err());
    let r = ServerMessage::try_from(RawMessage { typemarker: 99, body: vec![] });
    assert!(r.is_err());
}

#[test]
fn wrong_literal_body_is_rejected() {
    let r = ClientMessage::try_from(RawMessage { typemarker: 1, body: b"HELP".to_vec() });
    assert!(r.is_err());
    let r = ServerMessage::try_from(RawMessage { typemarker: 153, body: b"VICTOR".to_vec() });
    assert!(r.is_err());
}

#[test]
fn well_formed_ships_body_with_invalid_fleet_is_rejected() {
    // five length-0 ships parse as ships but fail fleet validation
    let r = ClientMessage::try_from(RawMessage { typemarker: 100, body: vec![0; 15] });
    assert!(r.is_err());

    // a fleet with the right lengths but an overlap is rejected too
    let mut body = ClientMessage::ShipPositions(reference_fleet()).to_raw().body;
    body[1] = 16;  // move the first ship's anchor onto the second ship's row
    let r = ClientMessage::try_from(RawMessage { typemarker: 100, body });
    assert!(r.is_err());
}

#[test]
fn short_ships_body_is_rejected() {
    let r = ClientMessage::try_from(RawMessage { typemarker: 100, body: vec![1, 0, 2] });
    assert!(r.is_err());
}

#[test]
fn nonzero_orientation_byte_reads_as_horizontal() {
    let mut body = ClientMessage::ShipPositions(reference_fleet()).to_raw().body;
    assert_eq!(body[0], 1);
    body[0] = 7;
    let m = ClientMessage::try_from(RawMessage { typemarker: 100, body }).unwrap();
    match m {
        ClientMessage::ShipPositions(ships) => {
            match ships.asarray()[0].plan() {
                ShipPlan::Horizontal { len, .. } => assert_eq!(len, 2),
                other => panic!("expected a horizontal ship, got {:?}", other),
            }
        }
        other => panic!("expected ship positions, got {:?}", other),
    }
}

#[test]
fn raw_message_as_ref_to_owned_round_trip() {
    let raw = RawMessage { typemarker: 42, body: vec![1, 2, 3] };
    let copy = raw.as_ref().to_owned();
    assert_eq!(copy.typemarker, 42);
    assert_eq!(copy.body, vec![1, 2, 3]);
}

#[test]
fn error_from_keeps_the_frame() {
    let e = Error::from(RawMessage { typemarker: 7, body: vec![9, 9] });
    assert_eq!(e, Error::Message { typemarker: 7, sizemarker: 2, body: vec![9, 9] });
}
