use ziel::logic::{AttackInfo, Board, Error, Position, Ship, ShipPlan, ShipPositionIter, ShipReference, Ships, validshippos};

fn pos(x: u8, y: u8) -> Position {
    Position::fromcoords(x, y).unwrap()
}

fn hship(x: u8, y: u8, len: u8) -> Ship {
    Ship::try_from(ShipPlan::Horizontal { pos: pos(x, y), len }).unwrap()
}

fn vship(x: u8, y: u8, len: u8) -> Ship {
    Ship::try_from(ShipPlan::Vertical { pos: pos(x, y), len }).unwrap()
}

fn reference_fleet() -> Ships {
    Ships::try_from([hship(0, 0, 2), hship(0, 1, 3), hship(0, 2, 3), hship(0, 3, 4), hship(
        0, 4, 5,
    )])
    .unwrap()
}

#[test]
fn position_packs_low_and_high_nibble() {
    let p = pos(3, 7);
    assert_eq!(p.byte(), 3 | (7 << 4));
    assert_eq!(p.coords(), (3, 7));
}

#[test]
fn position_byte_round_trip_all_valid_bytes() {
    for b in 0..=255u8 {
        let x = b & 0x0f;
        let y = b >> 4;
        match Position::frombyte(b) {
            Some(p) => {
                assert!(x < 10 && y < 10);
                assert_eq!(p.coords(), (x, y));
                assert_eq!(p.byte(), b);
            }
            None => assert!(x >= 10 || y >= 10),
        }
    }
}

#[test]
fn position_fromcoords_rejects_off_grid() {
    assert!(Position::fromcoords(9, 9).is_some());
    assert!(Position::fromcoords(10, 0).is_none());
    assert!(Position::fromcoords(0, 10).is_none());
    assert!(Position::fromcoords(255, 255).is_none());
}

#[test]
fn position_toboard_labels() {
    assert_eq!(pos(0, 0).toboard(), ["A", "1"]);
    assert_eq!(pos(9, 9).toboard(), ["J", "10"]);
    assert_eq!(pos(2, 4).toboard(), ["C", "5"]);
}

#[test]
fn ship_try_from_checks_extent() {
    assert!(Ship::try_from(ShipPlan::Horizontal { pos: pos(8, 0), len: 2 }).is_ok());
    assert!(Ship::try_from(ShipPlan::Horizontal { pos: pos(8, 0), len: 3 }).is_err());
    assert!(Ship::try_from(ShipPlan::Vertical { pos: pos(0, 8), len: 2 }).is_ok());
    assert!(Ship::try_from(ShipPlan::Vertical { pos: pos(0, 8), len: 3 }).is_err());
}

#[test]
fn ship_position_iter_yields_cells_from_far_end() {
    let mut it = ShipPositionIter::new(hship(0, 0, 2));
    assert_eq!(it.next(), Some(pos(1, 0)));
    assert_eq!(it.next(), Some(pos(0, 0)));
    assert_eq!(it.next(), None);

    let mut it = ShipPositionIter::new(vship(4, 5, 3));
    assert_eq!(it.next(), Some(pos(4, 7)));
    assert_eq!(it.next(), Some(pos(4, 6)));
    assert_eq!(it.next(), Some(pos(4, 5)));
    assert_eq!(it.next(), None);
}

#[test]
fn reference_fleet_is_accepted() {
    let ships = reference_fleet();
    assert_eq!(ships.asarray().len(), 5);
}

#[test]
fn fleet_with_duplicate_length_is_rejected() {
    // lengths {2, 2, 3, 4, 5}: the second length-2 ship finds no free slot
    let r = Ships::try_from([hship(0, 0, 2), hship(0, 1, 2), hship(0, 2, 3), hship(0, 3, 4),
        hship(0, 4, 5)]);
    assert_eq!(r.unwrap_err(), Error::InvalidShipLengths);
}

#[test]
fn fleet_with_off_multiset_length_is_rejected() {
    // lengths {2, 3, 3, 4, 6}: no slot for a length-6 ship
    let r = Ships::try_from([hship(0, 0, 2), hship(0, 1, 3), hship(0, 2, 3), hship(0, 3, 4),
        hship(0, 4, 6)]);
    assert_eq!(r.unwrap_err(), Error::InvalidShipLengths);

    // lengths {2, 3, 3, 3, 5}: only two slots take length 3
    let r = Ships::try_from([hship(0, 0, 2), hship(0, 1, 3), hship(0, 2, 3), hship(0, 3, 3),
        hship(0, 4, 5)]);
    assert_eq!(r.unwrap_err(), Error::InvalidShipLengths);
}

#[test]
fn fleet_with_overlap_is_rejected() {
    // the length-3 vertical ship crosses the length-2 horizontal one at (0, 0)
    let r = Ships::try_from([hship(0, 0, 2), vship(0, 0, 3), hship(0, 2, 3), hship(0, 3, 4),
        hship(0, 4, 5)]);
    assert_eq!(r.unwrap_err(), Error::ShipOverlap);
}

#[test]
fn validshippos_detects_overlap() {
    assert!(validshippos(reference_fleet().asarray()));
    let overlapping = [hship(0, 0, 2), vship(1, 0, 3), hship(0, 2, 3), hship(0, 3, 4), hship(
        0, 4, 5,
    )];
    assert!(!validshippos(&overlapping));
}

#[test]
fn shipreference_inner() {
    assert_eq!(ShipReference::empty().inner(), None);
    assert_eq!(ShipReference::occupied(3).inner(), Some(3));
}

#[test]
fn board_target_miss_then_no_effect() {
    let mut board = Board::new(reference_fleet());
    assert_eq!(board.target(pos(9, 9)), Some(AttackInfo::Miss));
    // the second call on the same cell signals no effect
    assert_eq!(board.target(pos(9, 9)), None);
    // and the cell stays a miss: a later shot elsewhere still hits normally
    assert_eq!(board.target(pos(0, 0)), Some(AttackInfo::Hit(false)));
}

#[test]
fn board_target_hit_then_no_effect() {
    let mut board = Board::new(reference_fleet());
    assert_eq!(board.target(pos(0, 0)), Some(AttackInfo::Hit(false)));
    assert_eq!(board.target(pos(0, 0)), None);
}

#[test]
fn board_sunk_detection_two_cell_ship() {
    // the reference fleet's first ship occupies (0,0) and (1,0)
    let mut board = Board::new(reference_fleet());
    assert_eq!(board.target(pos(0, 0)), Some(AttackInfo::Hit(false)));
    assert_eq!(board.target(pos(1, 0)), Some(AttackInfo::Hit(true)));
}

#[test]
fn board_allsunken_only_after_every_ship_cell() {
    let mut board = Board::new(reference_fleet());
    assert!(!board.allsunken());
    let cells: Vec<(u8, u8)> = vec![
        (0, 0), (1, 0),
        (0, 1), (1, 1), (2, 1),
        (0, 2), (1, 2), (2, 2),
        (0, 3), (1, 3), (2, 3), (3, 3),
        (0, 4), (1, 4), (2, 4), (3, 4), (4, 4),
    ];
    assert_eq!(cells.len(), 17);
    for (i, (x, y)) in cells.iter().enumerate() {
        assert!(!board.allsunken());
        let info = board.target(pos(*x, *y)).unwrap();
        let last_of_ship = match (*x, *y) {
            (1, 0) | (2, 1) | (2, 2) | (3, 3) | (4, 4) => true,
            _ => false,
        };
        assert_eq!(info, AttackInfo::Hit(last_of_ship), "cell {} {:?}", i, (x, y));
    }
    assert!(board.allsunken());
}

#[test]
fn board_misses_never_sink() {
    let mut board = Board::new(reference_fleet());
    for x in 0..10u8 {
        for y in 5..10u8 {
            assert_eq!(board.target(pos(x, y)), Some(AttackInfo::Miss));
        }
    }
    assert!(!board.allsunken());
}

#[test]
fn board_ships_returns_the_fleet() {
    let fleet = reference_fleet();
    let board = Board::new(fleet);
    assert_eq!(*board.ships(), fleet);
}
