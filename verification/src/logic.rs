//! Board logic: grid positions, ship plans, validated fleets, and per-match
//! board state with targeting.
//!
//! Coordinates live on a 10x10 grid.  A [`Position`] packs both coordinates
//! into one byte as `x | (y << 4)`; the spec-level accessors [`Position::x`]
//! and [`Position::y`] recover them arithmetically.  A fleet is valid when the
//! multiset of ship lengths is exactly `{2, 3, 3, 4, 5}` and no two ships share
//! a cell; [`Ships::try_from`] is the only way to build one.

use vstd::prelude::*;

verus! {

/// Errors raised by fleet validation and by the match coordinator's use of a
/// board.
#[derive(Debug, Clone, Copy, PartialEq, Eq)]
pub enum Error {
    /// Two ships of the submitted fleet occupy the same cell.
    ShipOverlap,
    /// The submitted ship lengths are not exactly `{2, 3, 3, 4, 5}`.
    InvalidShipLengths,
    /// A player targeted a cell that was already targeted.
    OccupiedTargetPosition,
}

/// A cell on the 10x10 grid, packed into one byte as `x | (y << 4)`.
#[derive(Clone, Copy, Default, PartialEq, Eq, Debug)]
pub struct Position(u8);

impl Position {
    /// The column, held in the low nibble of the byte.
    pub closed spec fn x(self) -> int {
        self.0 as int % 16
    }

    /// The row, held in the high nibble of the byte.
    pub closed spec fn y(self) -> int {
        self.0 as int / 16
    }

    /// The packed byte, determined by the coordinates alone.
    pub open spec fn as_byte(self) -> int {
        self.x() + 16 * self.y()
    }

    /// Both coordinates lie on the grid.
    pub open spec fn wf(self) -> bool {
        self.x() < 10 && self.y() < 10
    }

    /// Decodes a packed byte, rejecting any byte whose coordinates leave the
    /// grid.
    pub fn frombyte(i: u8) -> (r: Option<Position>)
        ensures
            r is Some <==> (i as int % 16 < 10 && i as int / 16 < 10),
            r matches Some(p) ==> p.x() == i as int % 16 && p.y() == i as int / 16,
            r matches Some(p) ==> p.wf() && p.as_byte() == i as int,
            r matches Some(p) ==> p == position_from_byte(i),
    {
        let (x, y) = Position(i).coords();
        proof {
            assert(i % 16 + 16 * (i / 16) == i) by (bit_vector);
        }
        match Position::fromcoords(x, y) {
            Some(p) => {
                proof {
                    lemma_position_from_byte(i);
                    lemma_position_as_byte_injective(p, position_from_byte(i));
                }
                Some(p)
            }
            None => None,
        }
    }

    /// The packed byte.
    pub fn byte(self) -> (r: u8)
        ensures
            r as int == self.as_byte(),
    {
        let b = self.0;
        proof {
            assert(b % 16 + 16 * (b / 16) == b) by (bit_vector);
        }
        b
    }

    /// Packs two coordinates, rejecting any that leave the grid.
    pub fn fromcoords(x: u8, y: u8) -> (r: Option<Position>)
        ensures
            r is Some <==> (x < 10 && y < 10),
            r matches Some(p) ==> p.x() == x as int && p.y() == y as int && p.wf(),
    {
        if x < 10 && y < 10 {
            proof {
                assert(x < 10 && y < 10 ==> x + (y << 4) < 256 && (x + (y << 4)) % 16 == x
                    && (x + (y << 4)) / 16 == y) by (bit_vector);
            }
            Some(Position(x + (y << 4)))
        } else {
            None
        }
    }

    /// Unpacks the byte into `(x, y)`.
    pub fn coords(self) -> (r: (u8, u8))
        ensures
            r.0 as int == self.x(),
            r.1 as int == self.y(),
    {
        let b = self.0;
        proof {
            assert(b & 0x0f == b % 16) by (bit_vector);
            assert(b >> 4 == b / 16) by (bit_vector);
        }
        (b & 0x0f, b >> 4)
    }

    /// The column label shown to players.
    pub closed spec fn column_label(self) -> &'static str {
        if self.x() == 0 { "A" }
        else if self.x() == 1 { "B" }
        else if self.x() == 2 { "C" }
        else if self.x() == 3 { "D" }
        else if self.x() == 4 { "E" }
        else if self.x() == 5 { "F" }
        else if self.x() == 6 { "G" }
        else if self.x() == 7 { "H" }
        else if self.x() == 8 { "I" }
        else { "J" }
    }

    /// The row label shown to players.
    pub closed spec fn row_label(self) -> &'static str {
        if self.y() == 0 { "1" }
        else if self.y() == 1 { "2" }
        else if self.y() == 2 { "3" }
        else if self.y() == 3 { "4" }
        else if self.y() == 4 { "5" }
        else if self.y() == 5 { "6" }
        else if self.y() == 6 { "7" }
        else if self.y() == 7 { "8" }
        else if self.y() == 8 { "9" }
        else { "10" }
    }

    /// The board labels for this cell: column letter, then row number.
    pub fn toboard(self) -> (r: [&'static str; 2])
        requires
            self.wf(),
        ensures
            r[0] == self.column_label(),
            r[1] == self.row_label(),
    {
        let (x, y) = self.coords();
        let cx: &'static str = match x {
            0 => "A",
            1 => "B",
            2 => "C",
            3 => "D",
            4 => "E",
            5 => "F",
            6 => "G",
            7 => "H",
            8 => "I",
            _ => "J",
        };
        let cy: &'static str = match y {
            0 => "1",
            1 => "2",
            2 => "3",
            3 => "4",
            4 => "5",
            5 => "6",
            6 => "7",
            7 => "8",
            8 => "9",
            _ => "10",
        };
        [cx, cy]
    }
}

/// The position holding packed byte `b`; names what decoders return.
pub closed spec fn position_from_byte(b: u8) -> Position {
    Position(b)
}

/// The coordinates of `position_from_byte(b)` are the nibbles of `b`.
pub proof fn lemma_position_from_byte(b: u8)
    ensures
        position_from_byte(b).x() == b as int % 16,
        position_from_byte(b).y() == b as int / 16,
        position_from_byte(b).as_byte() == b as int,
{
    assert(b % 16 + 16 * (b / 16) == b) by (bit_vector);
}

/// The packed byte determines the position.
pub proof fn lemma_position_as_byte_injective(p: Position, q: Position)
    requires
        p.as_byte() == q.as_byte(),
    ensures
        p == q,
{
    let a = p.0;
    let b = q.0;
    assert(a % 16 + 16 * (a / 16) == a) by (bit_vector);
    assert(b % 16 + 16 * (b / 16) == b) by (bit_vector);
}

/// Packing a position into its byte and decoding it again yields the same
/// position.
pub proof fn lemma_position_round_trip(p: Position)
    ensures
        position_from_byte(p.as_byte() as u8) == p,
{
    let b = p.0;
    assert(b % 16 + 16 * (b / 16) == b) by (bit_vector);
}

/// An unvalidated ship placement: an orientation, an anchor cell, and a
/// length.  The ship extends rightwards (horizontal) or downwards (vertical)
/// from its anchor.
#[derive(Debug, Clone, Copy, PartialEq, Eq)]
pub enum ShipPlan {
    Horizontal { pos: Position, len: u8 },
    Vertical { pos: Position, len: u8 },
}

impl ShipPlan {
    /// The ship's length in cells.
    pub open spec fn length(self) -> int {
        match self {
            ShipPlan::Horizontal { pos, len } => len as int,
            ShipPlan::Vertical { pos, len } => len as int,
        }
    }

    /// The anchor cell.
    pub open spec fn anchor(self) -> Position {
        match self {
            ShipPlan::Horizontal { pos, len } => pos,
            ShipPlan::Vertical { pos, len } => pos,
        }
    }

    /// Whether the ship extends along a row.
    pub open spec fn horizontal(self) -> bool {
        self is Horizontal
    }

    /// Whether the ship occupies cell `(x, y)`.
    pub open spec fn covers(self, x: int, y: int) -> bool {
        if self.horizontal() {
            y == self.anchor().y() && self.anchor().x() <= x < self.anchor().x() + self.length()
        } else {
            x == self.anchor().x() && self.anchor().y() <= y < self.anchor().y() + self.length()
        }
    }

    /// The ship's full extent stays within the grid.
    pub open spec fn wf(self) -> bool {
        &&& self.anchor().wf()
        &&& if self.horizontal() {
            self.anchor().x() + self.length() <= 10
        } else {
            self.anchor().y() + self.length() <= 10
        }
    }
}

/// A ship whose plan has been checked to stay within the grid.
#[derive(Debug, Clone, Copy, PartialEq, Eq)]
pub struct Ship(ShipPlan);

impl View for Ship {
    type V = ShipPlan;

    closed spec fn view(&self) -> ShipPlan {
        self.0
    }
}

impl Ship {
    /// Validates a plan: the ship must lie entirely on the grid.
    pub fn try_from(value: ShipPlan) -> (r: Result<Ship, ()>)
        requires
            value.anchor().wf(),
        ensures
            r is Ok <==> value.wf(),
            r matches Ok(s) ==> s@ == value,
    {
        let ok = match value {
            ShipPlan::Horizontal { pos, len } => {
                let (x, _) = pos.coords();
                len <= 10 && x + len <= 10
            }
            ShipPlan::Vertical { pos, len } => {
                let (_, y) = pos.coords();
                len <= 10 && y + len <= 10
            }
        };
        if ok {
            Ok(Ship(value))
        } else {
            Err(())
        }
    }

    /// The underlying plan.
    pub fn plan(self) -> (r: ShipPlan)
        ensures
            r == self@,
    {
        self.0
    }

    /// The cell `k` steps from the anchor along the ship's orientation.
    pub fn cell(self, k: u8) -> (r: Position)
        requires
            self@.wf(),
            k < self@.length(),
        ensures
            r.wf(),
            r.x() == cell_x(self@, k as int),
            r.y() == cell_y(self@, k as int),
            self@.covers(r.x(), r.y()),
    {
        match self.0 {
            ShipPlan::Horizontal { pos, len } => {
                let (x, y) = pos.coords();
                Position::fromcoords(x + k, y).unwrap()
            }
            ShipPlan::Vertical { pos, len } => {
                let (x, y) = pos.coords();
                Position::fromcoords(x, y + k).unwrap()
            }
        }
    }
}

/// Column of the cell `k` steps from the anchor of `p`.
pub open spec fn cell_x(p: ShipPlan, k: int) -> int {
    if p.horizontal() {
        p.anchor().x() + k
    } else {
        p.anchor().x()
    }
}

/// Row of the cell `k` steps from the anchor of `p`.
pub open spec fn cell_y(p: ShipPlan, k: int) -> int {
    if p.horizontal() {
        p.anchor().y()
    } else {
        p.anchor().y() + k
    }
}

/// Whether one of the first `kk` cells of `p` is `(x, y)`.
pub open spec fn covers_first(p: ShipPlan, kk: int, x: int, y: int) -> bool {
    if p.horizontal() {
        y == p.anchor().y() && p.anchor().x() <= x < p.anchor().x() + kk
    } else {
        x == p.anchor().x() && p.anchor().y() <= y < p.anchor().y() + kk
    }
}

/// A ship covers a cell exactly when that cell is one of its `length()` cells.
pub proof fn lemma_covers_cells(p: ShipPlan, x: int, y: int)
    ensures
        p.covers(x, y) <==> exists|k: int|
            0 <= k < p.length() && cell_x(p, k) == x && cell_y(p, k) == y,
{
    if p.covers(x, y) {
        let k = if p.horizontal() { x - p.anchor().x() } else { y - p.anchor().y() };
        assert(0 <= k < p.length() && cell_x(p, k) == x && cell_y(p, k) == y);
    }
}

/// The plans of the five ships, in input order.
pub open spec fn plans_of(ships: [Ship; 5]) -> Seq<ShipPlan> {
    Seq::new(5, |i: int| ships[i]@)
}

/// Number of ships of length `l` in the sequence.
pub open spec fn count_len(s: Seq<ShipPlan>, l: int) -> int
    decreases s.len(),
{
    if s.len() == 0 {
        0
    } else {
        count_len(s.drop_last(), l) + if s.last().length() == l {
            1int
        } else {
            0int
        }
    }
}

/// The multiset of ship lengths is exactly `{2, 3, 3, 4, 5}`.
pub open spec fn lengths_ok(s: Seq<ShipPlan>) -> bool {
    &&& count_len(s, 2) == 1
    &&& count_len(s, 3) == 2
    &&& count_len(s, 4) == 1
    &&& count_len(s, 5) == 1
}

/// Some ship among the first `n` covers `(x, y)`.
pub open spec fn covered_by_first(s: Seq<ShipPlan>, n: int, x: int, y: int) -> bool {
    exists|j: int| 0 <= j < n && #[trigger] s[j].covers(x, y)
}

/// Some ship of the fleet covers `(x, y)`.
pub open spec fn fleet_covers(s: Seq<ShipPlan>, x: int, y: int) -> bool {
    covered_by_first(s, s.len() as int, x, y)
}

/// No two distinct ships share a cell.
pub open spec fn no_overlap(s: Seq<ShipPlan>) -> bool {
    forall|j1: int, j2: int, x: int, y: int|
        0 <= j1 < j2 < s.len() && #[trigger] s[j1].covers(x, y) ==> !#[trigger] s[j2].covers(x, y)
}

/// A fleet is valid when it has five in-bounds ships whose lengths form the
/// multiset `{2, 3, 3, 4, 5}` and no two ships share a cell.
pub open spec fn fleet_valid(s: Seq<ShipPlan>) -> bool {
    &&& s.len() == 5
    &&& (forall|i: int| 0 <= i < 5 ==> #[trigger] s[i].wf())
    &&& lengths_ok(s)
    &&& no_overlap(s)
}

proof fn lemma_count_len_take_succ(s: Seq<ShipPlan>, l: int, i: int)
    requires
        0 <= i < s.len(),
    ensures
        count_len(s.take(i + 1), l) == count_len(s.take(i), l) + if s[i].length() == l {
            1int
        } else {
            0int
        },
{
    assert(s.take(i + 1).drop_last() =~= s.take(i));
    assert(s.take(i + 1).last() == s[i]);
}

proof fn lemma_count_len_take_le(s: Seq<ShipPlan>, l: int, i: int)
    requires
        0 <= i <= s.len(),
    ensures
        count_len(s.take(i), l) <= count_len(s, l),
    decreases s.len() - i,
{
    if i == s.len() {
        assert(s.take(i) =~= s);
    } else {
        lemma_count_len_take_succ(s, l, i);
        lemma_count_len_take_le(s, l, i + 1);
    }
}

proof fn lemma_count_len_sum(s: Seq<ShipPlan>)
    ensures
        count_len(s, 2) + count_len(s, 3) + count_len(s, 4) + count_len(s, 5) <= s.len(),
    decreases s.len(),
{
    if s.len() > 0 {
        lemma_count_len_sum(s.drop_last());
    }
}

proof fn lemma_count_len_sum_strict(s: Seq<ShipPlan>, i: int)
    requires
        0 <= i < s.len(),
        s[i].length() != 2 && s[i].length() != 3 && s[i].length() != 4 && s[i].length() != 5,
    ensures
        count_len(s, 2) + count_len(s, 3) + count_len(s, 4) + count_len(s, 5) <= s.len() - 1,
    decreases s.len(),
{
    if i == s.len() - 1 {
        lemma_count_len_sum(s.drop_last());
    } else {
        lemma_count_len_sum_strict(s.drop_last(), i);
        assert(s.drop_last()[i] == s[i]);
    }
}

/// The validated fleet of five ships belonging to one player.
#[derive(Debug, Clone, Copy, PartialEq, Eq)]
pub struct Ships([Ship; 5]);

impl View for Ships {
    type V = Seq<ShipPlan>;

    closed spec fn view(&self) -> Seq<ShipPlan> {
        plans_of(self.0)
    }
}

proof fn lemma_plans_of_index(arr: [Ship; 5], i: int)
    requires
        0 <= i < 5,
    ensures
        plans_of(arr)[i] == arr[i]@,
{
}

/// The fleet's plans determine the fleet value.
pub proof fn lemma_ships_view_injective(a: Ships, b: Ships)
    requires
        a@ == b@,
    ensures
        a == b,
{
    assert forall|i: int| 0 <= i < 5 implies a.0@[i] == b.0@[i] by {
        lemma_plans_of_index(a.0, i);
        lemma_plans_of_index(b.0, i);
        assert(a@[i] == b@[i]);
        assert(a.0[i]@ == b.0[i]@);
        let sa = a.0[i];
        let sb = b.0[i];
        assert(sa.0 == sb.0);
        assert(sa == sb);
    }
    assert(a.0@ =~= b.0@);
    assert(a.0 =~= b.0);
}

impl Ships {
    /// The five ships, in the order they were submitted.
    pub fn asarray(&self) -> (r: &[Ship; 5])
        ensures
            forall|i: int| 0 <= i < 5 ==> r[i]@ == self@[i],
    {
        &self.0
    }

    /// The ship at index `i`.
    pub fn get(&self, i: usize) -> (r: Ship)
        requires
            i < 5,
        ensures
            r@ == self@[i as int],
    {
        self.0[i]
    }

    /// Validates a fleet, walking the ships in input order: each ship must
    /// match one not-yet-consumed slot of the required length multiset
    /// `{2, 3, 3, 4, 5}`, and every covered cell must be fresh.  When both
    /// checks could fail, the walk reports whichever it meets first.
    pub fn try_from(ships: [Ship; 5]) -> (r: Result<Ships, Error>)
        requires
            forall|i: int| 0 <= i < 5 ==> ships[i]@.wf(),
        ensures
            r is Ok <==> fleet_valid(plans_of(ships)),
            r matches Ok(f) ==> f@ == plans_of(ships),
            r matches Err(e) ==> {
                &&& (e is InvalidShipLengths || e is ShipOverlap)
                &&& (e is InvalidShipLengths ==> !lengths_ok(plans_of(ships)))
                &&& (e is ShipOverlap ==> !no_overlap(plans_of(ships)))
            },
    {
        let ghost plans = plans_of(ships);
        let mut slot2 = false;
        let mut slot3a = false;
        let mut slot3b = false;
        let mut slot4 = false;
        let mut slot5 = false;
        let mut grid = new_grid();
        for i in 0..5usize
            invariant
                forall|j: int| 0 <= j < 5 ==> ships[j]@.wf(),
                plans == plans_of(ships),
                count_len(plans.take(i as int), 2) == if slot2 { 1int } else { 0int },
                count_len(plans.take(i as int), 3) == if slot3b { 2int } else if slot3a { 1int } else { 0int },
                count_len(plans.take(i as int), 4) == if slot4 { 1int } else { 0int },
                count_len(plans.take(i as int), 5) == if slot5 { 1int } else { 0int },
                slot3b ==> slot3a,
                count_len(plans.take(i as int), 2) + count_len(plans.take(i as int), 3)
                    + count_len(plans.take(i as int), 4) + count_len(plans.take(i as int), 5)
                    == i as int,
                grid@.len() == 100,
                forall|x: int, y: int| 0 <= x < 10 && 0 <= y < 10 ==>
                    #[trigger] grid@[y * 10 + x] == covered_by_first(plans, i as int, x, y),
                forall|j1: int, j2: int, x: int, y: int|
                    0 <= j1 < j2 < i as int && #[trigger] plans[j1].covers(x, y)
                        ==> !#[trigger] plans[j2].covers(x, y),
        {
            let ship = ships[i];
            let len8 = match ship.plan() {
                ShipPlan::Horizontal { pos: _, len } => len,
                ShipPlan::Vertical { pos: _, len } => len,
            };
            proof {
                lemma_count_len_take_succ(plans, 2, i as int);
                lemma_count_len_take_succ(plans, 3, i as int);
                lemma_count_len_take_succ(plans, 4, i as int);
                lemma_count_len_take_succ(plans, 5, i as int);
            }
            let taken = if len8 == 2 {
                if !slot2 { slot2 = true; true } else { false }
            } else if len8 == 3 {
                if !slot3a { slot3a = true; true }
                else if !slot3b { slot3b = true; true }
                else { false }
            } else if len8 == 4 {
                if !slot4 { slot4 = true; true } else { false }
            } else if len8 == 5 {
                if !slot5 { slot5 = true; true } else { false }
            } else {
                false
            };
            if !taken {
                proof {
                    if len8 != 2 && len8 != 3 && len8 != 4 && len8 != 5 {
                        lemma_count_len_sum_strict(plans, i as int);
                    } else {
                        lemma_count_len_take_le(plans, len8 as int, i as int + 1);
                    }
                }
                return Err(Error::InvalidShipLengths);
            }
            let mut k: u8 = 0;
            while k < len8
                invariant
                    forall|j: int| 0 <= j < 5 ==> ships[j]@.wf(),
                    plans == plans_of(ships),
                    i < 5,
                    k <= len8,
                    len8 as int == plans[i as int].length(),
                    ship@ == plans[i as int],
                    grid@.len() == 100,
                    forall|x: int, y: int| 0 <= x < 10 && 0 <= y < 10 ==>
                        #[trigger] grid@[y * 10 + x] == (covered_by_first(plans, i as int, x, y)
                            || covers_first(plans[i as int], k as int, x, y)),
                    forall|x: int, y: int| covers_first(plans[i as int], k as int, x, y)
                        ==> !covered_by_first(plans, i as int, x, y),
                decreases len8 - k,
            {
                let pos = ship.cell(k);
                let (cx, cy) = pos.coords();
                let idx = (cy as usize) * 10 + (cx as usize);
                let ghost gx = cell_x(plans[i as int], k as int);
                let ghost gy = cell_y(plans[i as int], k as int);
                proof {
                    assert(idx as int == gy * 10 + gx);
                }
                if grid[idx] {
                    proof {
                        assert(grid@[gy * 10 + gx]);
                        assert(!covers_first(plans[i as int], k as int, gx, gy));
                        assert(covered_by_first(plans, i as int, gx, gy));
                        let j = choose|j: int| 0 <= j < i as int && #[trigger] plans[j].covers(gx, gy);
                        assert(plans[i as int].covers(gx, gy));
                        assert(!no_overlap(plans));
                    }
                    return Err(Error::ShipOverlap);
                }
                proof {
                    assert(!grid@[gy * 10 + gx]);
                    assert(!covered_by_first(plans, i as int, gx, gy));
                }
                grid.set(idx, true);
                k = k + 1;
                proof {
                    assert forall|x: int, y: int| 0 <= x < 10 && 0 <= y < 10 implies
                        #[trigger] grid@[y * 10 + x] == (covered_by_first(plans, i as int, x, y)
                            || covers_first(plans[i as int], k as int, x, y)) by {
                        if y * 10 + x == gy * 10 + gx {
                            assert(x == gx && y == gy);
                        }
                    }
                }
            }
            proof {
                assert forall|x: int, y: int| 0 <= x < 10 && 0 <= y < 10 implies
                    #[trigger] grid@[y * 10 + x] == covered_by_first(plans, i as int + 1, x, y) by {
                    assert(covers_first(plans[i as int], len8 as int, x, y)
                        == plans[i as int].covers(x, y));
                    if covered_by_first(plans, i as int, x, y) {
                        let j = choose|j: int| 0 <= j < i as int && #[trigger] plans[j].covers(x, y);
                        assert(covered_by_first(plans, i as int + 1, x, y));
                    }
                    if covered_by_first(plans, i as int + 1, x, y) {
                        let j = choose|j: int| 0 <= j < i as int + 1 && #[trigger] plans[j].covers(x, y);
                        if j < i as int {
                            assert(covered_by_first(plans, i as int, x, y));
                        }
                    }
                }
            }
            proof {
                assert forall|j1: int, j2: int, x: int, y: int|
                    0 <= j1 < j2 < i as int + 1 && #[trigger] plans[j1].covers(x, y) implies
                    !#[trigger] plans[j2].covers(x, y) by {
                    if j2 == i as int && plans[j2].covers(x, y) {
                        assert(covers_first(plans[i as int], len8 as int, x, y));
                        assert(covered_by_first(plans, i as int, x, y));
                    }
                }
            }
        }
        proof {
            assert(plans.take(5) =~= plans);
        }
        Ok(Ships(ships))
    }
}

/// Yields the cells of a ship plan, from the far end back to the anchor.
pub struct ShipPositionIter(ShipPlan);

impl ShipPositionIter {
    /// The plan whose not-yet-yielded cells remain.
    pub closed spec fn plan(self) -> ShipPlan {
        self.0
    }

    /// Starts iterating over the cells of `ship`.
    pub fn new(ship: Ship) -> (r: ShipPositionIter)
        ensures
            r.plan() == ship@,
    {
        ShipPositionIter(ship.plan())
    }

    /// The next cell, or `None` once every cell has been yielded.
    pub fn next(&mut self) -> (r: Option<Position>)
        requires
            old(self).plan().wf(),
        ensures
            final(self).plan().wf(),
            final(self).plan().anchor() == old(self).plan().anchor(),
            final(self).plan().horizontal() == old(self).plan().horizontal(),
            old(self).plan().length() == 0 ==> r is None && final(self).plan() == old(self).plan(),
            old(self).plan().length() > 0 ==> {
                &&& final(self).plan().length() == old(self).plan().length() - 1
                &&& r matches Some(p) && p.x() == cell_x(old(self).plan(), old(self).plan().length() - 1)
                    && p.y() == cell_y(old(self).plan(), old(self).plan().length() - 1)
            },
    {
        match self.0 {
            ShipPlan::Horizontal { pos, len } => {
                if len == 0 {
                    return None;
                }
                let len2 = len - 1;
                self.0 = ShipPlan::Horizontal { pos, len: len2 };
                let (x, y) = pos.coords();
                Some(Position::fromcoords(x + len2, y).unwrap())
            }
            ShipPlan::Vertical { pos, len } => {
                if len == 0 {
                    return None;
                }
                let len2 = len - 1;
                self.0 = ShipPlan::Vertical { pos, len: len2 };
                let (x, y) = pos.coords();
                Some(Position::fromcoords(x, y + len2).unwrap())
            }
        }
    }
}

fn new_grid() -> (r: Vec<bool>)
    ensures
        r@.len() == 100,
        forall|c: int| 0 <= c < 100 ==> !r@[c],
{
    let mut grid: Vec<bool> = Vec::new();
    let mut n: usize = 0;
    while n < 100
        invariant
            grid@.len() == n as int,
            n <= 100,
            forall|c: int| 0 <= c < n as int ==> !grid@[c],
        decreases 100 - n,
    {
        grid.push(false);
        n = n + 1;
    }
    grid
}

/// Checks that no two of the five ships occupy a common cell.
pub fn validshippos(ships: &[Ship; 5]) -> (r: bool)
    requires
        forall|i: int| 0 <= i < 5 ==> ships[i]@.wf(),
    ensures
        r == no_overlap(plans_of(*ships)),
{
    let ghost plans = plans_of(*ships);
    let mut grid = new_grid();
    for i in 0..5usize
        invariant
            forall|j: int| 0 <= j < 5 ==> ships[j]@.wf(),
            plans == plans_of(*ships),
            grid@.len() == 100,
            forall|x: int, y: int| 0 <= x < 10 && 0 <= y < 10 ==>
                #[trigger] grid@[y * 10 + x] == covered_by_first(plans, i as int, x, y),
            forall|j1: int, j2: int, x: int, y: int|
                0 <= j1 < j2 < i as int && #[trigger] plans[j1].covers(x, y)
                    ==> !#[trigger] plans[j2].covers(x, y),
    {
        let ship = ships[i];
        let len8 = match ship.plan() {
            ShipPlan::Horizontal { pos: _, len } => len,
            ShipPlan::Vertical { pos: _, len } => len,
        };
        let mut k: u8 = 0;
        while k < len8
            invariant
                forall|j: int| 0 <= j < 5 ==> ships[j]@.wf(),
                plans == plans_of(*ships),
                i < 5,
                k <= len8,
                len8 as int == plans[i as int].length(),
                ship@ == plans[i as int],
                grid@.len() == 100,
                forall|x: int, y: int| 0 <= x < 10 && 0 <= y < 10 ==>
                    #[trigger] grid@[y * 10 + x] == (covered_by_first(plans, i as int, x, y)
                        || covers_first(plans[i as int], k as int, x, y)),
                forall|x: int, y: int| covers_first(plans[i as int], k as int, x, y)
                    ==> !covered_by_first(plans, i as int, x, y),
            decreases len8 - k,
        {
            let pos = ship.cell(k);
            let (cx, cy) = pos.coords();
            let idx = (cy as usize) * 10 + (cx as usize);
            let ghost gx = cell_x(plans[i as int], k as int);
            let ghost gy = cell_y(plans[i as int], k as int);
            proof {
                assert(idx as int == gy * 10 + gx);
            }
            if grid[idx] {
                proof {
                    assert(grid@[gy * 10 + gx]);
                    assert(!covers_first(plans[i as int], k as int, gx, gy));
                    assert(covered_by_first(plans, i as int, gx, gy));
                    let j = choose|j: int| 0 <= j < i as int && #[trigger] plans[j].covers(gx, gy);
                    assert(plans[i as int].covers(gx, gy));
                    assert(!no_overlap(plans));
                }
                return false;
            }
            proof {
                assert(!grid@[gy * 10 + gx]);
                assert(!covered_by_first(plans, i as int, gx, gy));
            }
            grid.set(idx, true);
            k = k + 1;
            proof {
                assert forall|x: int, y: int| 0 <= x < 10 && 0 <= y < 10 implies
                    #[trigger] grid@[y * 10 + x] == (covered_by_first(plans, i as int, x, y)
                        || covers_first(plans[i as int], k as int, x, y)) by {
                    if y * 10 + x == gy * 10 + gx {
                        assert(x == gx && y == gy);
                    }
                }
            }
        }
        proof {
            assert forall|x: int, y: int| 0 <= x < 10 && 0 <= y < 10 implies
                #[trigger] grid@[y * 10 + x] == covered_by_first(plans, i as int + 1, x, y) by {
                assert(covers_first(plans[i as int], len8 as int, x, y)
                    == plans[i as int].covers(x, y));
                if covered_by_first(plans, i as int, x, y) {
                    let j = choose|j: int| 0 <= j < i as int && #[trigger] plans[j].covers(x, y);
                    assert(covered_by_first(plans, i as int + 1, x, y));
                }
                if covered_by_first(plans, i as int + 1, x, y) {
                    let j = choose|j: int| 0 <= j < i as int + 1 && #[trigger] plans[j].covers(x, y);
                    if j < i as int {
                        assert(covered_by_first(plans, i as int, x, y));
                    }
                }
            }
            assert forall|j1: int, j2: int, x: int, y: int|
                0 <= j1 < j2 < i as int + 1 && #[trigger] plans[j1].covers(x, y) implies
                !#[trigger] plans[j2].covers(x, y) by {
                if j2 == i as int && plans[j2].covers(x, y) {
                    assert(covers_first(plans[i as int], len8 as int, x, y));
                    assert(covered_by_first(plans, i as int, x, y));
                }
            }
        }
    }
    true
}

/// Marks one cell of the board's ship map: either free, or held by the ship
/// with the stored fleet index.
#[derive(Clone, Copy, PartialEq, Eq, Debug)]
pub struct ShipReference(u8);

impl View for ShipReference {
    type V = Option<u8>;

    closed spec fn view(&self) -> Option<u8> {
        if self.0 == 255 {
            None
        } else {
            Some(self.0)
        }
    }
}

impl ShipReference {
    /// A cell held by no ship.
    pub fn empty() -> (r: ShipReference)
        ensures
            r@ is None,
    {
        ShipReference(u8::MAX)
    }

    /// A cell held by the ship at fleet index `idx`.
    pub fn occupied(idx: u8) -> (r: ShipReference)
        requires
            idx < 255,
        ensures
            r@ == Some(idx),
    {
        ShipReference(idx)
    }

    /// The fleet index held here, if any.
    pub fn inner(self) -> (r: Option<u8>)
        ensures
            r == self@,
    {
        if self.0 == u8::MAX {
            None
        } else {
            Some(self.0)
        }
    }
}

/// The outcome of targeting a fresh cell: a hit, with whether it sank the
/// ship, or a miss.
#[derive(Debug, Clone, Copy, PartialEq, Eq)]
pub enum AttackInfo {
    Hit(bool),
    Miss,
}

/// Number of `true` cells in the sequence.
pub open spec fn count_true(s: Seq<bool>) -> int
    decreases s.len(),
{
    if s.len() == 0 {
        0
    } else {
        count_true(s.drop_last()) + if s.last() {
            1int
        } else {
            0int
        }
    }
}

proof fn lemma_count_true_zero(s: Seq<bool>)
    requires
        forall|c: int| 0 <= c < s.len() ==> !s[c],
    ensures
        count_true(s) == 0,
    decreases s.len(),
{
    if s.len() > 0 {
        lemma_count_true_zero(s.drop_last());
    }
}

proof fn lemma_count_true_bounds(s: Seq<bool>)
    ensures
        0 <= count_true(s) <= s.len(),
    decreases s.len(),
{
    if s.len() > 0 {
        lemma_count_true_bounds(s.drop_last());
    }
}

proof fn lemma_count_true_set(s: Seq<bool>, i: int)
    requires
        0 <= i < s.len(),
        !s[i],
    ensures
        count_true(s.update(i, true)) == count_true(s) + 1,
    decreases s.len(),
{
    if i == s.len() - 1 {
        assert(s.update(i, true).drop_last() =~= s.drop_last());
    } else {
        assert(s.update(i, true).drop_last() =~= s.drop_last().update(i, true));
        lemma_count_true_set(s.drop_last(), i);
    }
}

/// A board never counts more than its hundred cells as targeted.
pub proof fn lemma_board_hits_bound(b: Board)
    requires
        b.wf(),
    ensures
        0 <= b.hits_count() <= 100,
{
    lemma_count_true_bounds(b.hitmap@);
}

/// How one cell of the ship map must relate to the first `n` ships: a stored
/// index names a ship that covers the cell; a free mark means none of them
/// does.
spec fn shipref_matches_first(s: Seq<ShipPlan>, n: int, r: ShipReference, x: int, y: int) -> bool {
    match r@ {
        Some(j) => 0 <= j < n && s[j as int].covers(x, y),
        None => forall|j: int| 0 <= j < n ==> !#[trigger] s[j].covers(x, y),
    }
}

/// Cells `0..kk` of plan `p` are all marked in the hit map `hm`.
spec fn cells_hit_first(hm: Seq<bool>, p: ShipPlan, kk: int) -> bool {
    forall|k: int| 0 <= k < kk ==> hm[cell_y(p, k) * 10 + #[trigger] cell_x(p, k)]
}

/// One player's board for one match: the validated fleet, a cell-to-ship map
/// derived from it, and the cells targeted so far.
#[derive(Debug, Clone)]
pub struct Board {
    ships: Ships,
    shipmap: Vec<ShipReference>,
    hitmap: Vec<bool>,
}

impl Board {
    /// The plans of the board's five ships.
    pub closed spec fn ships_view(self) -> Seq<ShipPlan> {
        self.ships@
    }

    /// Whether cell `(x, y)` has been targeted.
    pub closed spec fn hit(self, x: int, y: int) -> bool {
        self.hitmap@[y * 10 + x]
    }

    /// Number of targeted cells.
    pub closed spec fn hits_count(self) -> int {
        count_true(self.hitmap@)
    }

    /// The board's internal consistency: a valid fleet, full-size maps, and a
    /// ship map that mirrors exactly which ship covers each cell.
    pub closed spec fn wf(self) -> bool {
        &&& fleet_valid(self.ships@)
        &&& self.shipmap@.len() == 100
        &&& self.hitmap@.len() == 100
        &&& forall|x: int, y: int| 0 <= x < 10 && 0 <= y < 10 ==>
            shipref_matches_first(self.ships@, 5, #[trigger] self.shipmap@[y * 10 + x], x, y)
    }

    /// Every cell of ship `i` has been targeted.
    pub open spec fn ship_sunk(self, i: int) -> bool {
        forall|x: int, y: int|
            0 <= x < 10 && 0 <= y < 10 && #[trigger] self.ships_view()[i].covers(x, y)
                ==> self.hit(x, y)
    }

    /// Every cell of every ship has been targeted.
    pub open spec fn all_sunk(self) -> bool {
        forall|i: int| 0 <= i < 5 ==> #[trigger] self.ship_sunk(i)
    }

    /// Builds the board for a validated fleet: derives the cell-to-ship map
    /// and starts with no cell targeted.
    pub fn new(ships: Ships) -> (r: Board)
        requires
            fleet_valid(ships@),
        ensures
            r.wf(),
            r.ships_view() == ships@,
            forall|x: int, y: int| 0 <= x < 10 && 0 <= y < 10 ==> !#[trigger] r.hit(x, y),
            r.hits_count() == 0,
    {
        let ghost plans = ships@;
        let mut shipmap: Vec<ShipReference> = Vec::new();
        let mut n: usize = 0;
        while n < 100
            invariant
                shipmap@.len() == n as int,
                n <= 100,
                forall|c: int| 0 <= c < n as int ==> (#[trigger] shipmap@[c])@ is None,
            decreases 100 - n,
        {
            shipmap.push(ShipReference::empty());
            n = n + 1;
        }
        let mut i: usize = 0;
        while i < 5
            invariant
                fleet_valid(plans),
                plans == ships@,
                i <= 5,
                shipmap@.len() == 100,
                forall|x: int, y: int| 0 <= x < 10 && 0 <= y < 10 ==>
                    shipref_matches_first(plans, i as int, #[trigger] shipmap@[y * 10 + x], x, y),
            decreases 5 - i,
        {
            let ship = ships.get(i);
            let len8 = match ship.plan() {
                ShipPlan::Horizontal { pos: _, len } => len,
                ShipPlan::Vertical { pos: _, len } => len,
            };
            let mut k: u8 = 0;
            while k < len8
                invariant
                    fleet_valid(plans),
                    plans == ships@,
                    i < 5,
                    k <= len8,
                    len8 as int == plans[i as int].length(),
                    ship@ == plans[i as int],
                    shipmap@.len() == 100,
                    forall|x: int, y: int| 0 <= x < 10 && 0 <= y < 10
                        && covers_first(plans[i as int], k as int, x, y) ==>
                        (#[trigger] shipmap@[y * 10 + x])@ == Some(i as u8),
                    forall|x: int, y: int| 0 <= x < 10 && 0 <= y < 10
                        && !covers_first(plans[i as int], k as int, x, y) ==>
                        shipref_matches_first(plans, i as int, #[trigger] shipmap@[y * 10 + x], x, y),
                decreases len8 - k,
            {
                let pos = ship.cell(k);
                let (cx, cy) = pos.coords();
                let idx = (cy as usize) * 10 + (cx as usize);
                let ghost gx = cell_x(plans[i as int], k as int);
                let ghost gy = cell_y(plans[i as int], k as int);
                proof {
                    assert(idx as int == gy * 10 + gx);
                }
                let ghost sm_before = shipmap@;
                shipmap.set(idx, ShipReference::occupied(i as u8));
                k = k + 1;
                proof {
                    assert forall|x: int, y: int| 0 <= x < 10 && 0 <= y < 10
                        && covers_first(plans[i as int], k as int, x, y) implies
                        (#[trigger] shipmap@[y * 10 + x])@ == Some(i as u8) by {
                        if y * 10 + x == gy * 10 + gx {
                            assert(x == gx && y == gy);
                            assert(shipmap@[gy * 10 + gx]@ == Some(i as u8));
                        } else {
                            assert(covers_first(plans[i as int], k as int - 1, x, y));
                            assert(shipmap@[y * 10 + x] == sm_before[y * 10 + x]);
                        }
                    }
                    assert forall|x: int, y: int| 0 <= x < 10 && 0 <= y < 10
                        && !covers_first(plans[i as int], k as int, x, y) implies
                        shipref_matches_first(plans, i as int, #[trigger] shipmap@[y * 10 + x], x, y) by {
                        if y * 10 + x == gy * 10 + gx {
                            assert(x == gx && y == gy);
                            assert(covers_first(plans[i as int], k as int, gx, gy));
                        } else {
                            assert(shipmap@[y * 10 + x] == sm_before[y * 10 + x]);
                            assert(!covers_first(plans[i as int], k as int - 1, x, y));
                            assert(shipref_matches_first(plans, i as int, sm_before[y * 10 + x], x, y));
                        }
                    }
                }
            }
            i = i + 1;
            proof {
                assert forall|x: int, y: int| 0 <= x < 10 && 0 <= y < 10 implies
                    shipref_matches_first(plans, i as int, #[trigger] shipmap@[y * 10 + x], x, y) by {
                    assert(covers_first(plans[i as int - 1], len8 as int, x, y)
                        == plans[i as int - 1].covers(x, y));
                }
            }
        }
        let hitmap = new_grid();
        proof {
            lemma_count_true_zero(hitmap@);
        }
        Board { ships, shipmap, hitmap }
    }

    /// Targets a cell.  A spent cell reports no effect and leaves the board
    /// unchanged; a fresh cell is marked once and for all, and reports a hit
    /// (with whether the struck ship is now fully sunk) or a miss.
    pub fn target(&mut self, pos: Position) -> (r: Option<AttackInfo>)
        requires
            old(self).wf(),
            pos.wf(),
        ensures
            final(self).wf(),
            final(self).ships_view() == old(self).ships_view(),
            old(self).hit(pos.x(), pos.y()) ==> r is None && *final(self) == *old(self),
            !old(self).hit(pos.x(), pos.y()) ==> {
                &&& r is Some
                &&& forall|x: int, y: int| 0 <= x < 10 && 0 <= y < 10 ==>
                    #[trigger] final(self).hit(x, y)
                        == (old(self).hit(x, y) || (x == pos.x() && y == pos.y()))
                &&& final(self).hits_count() == old(self).hits_count() + 1
                &&& (fleet_covers(old(self).ships_view(), pos.x(), pos.y()) ==> ({
                    &&& r matches Some(AttackInfo::Hit(snk))
                    &&& forall|j: int| 0 <= j < 5
                        && #[trigger] old(self).ships_view()[j].covers(pos.x(), pos.y())
                        ==> snk == final(self).ship_sunk(j)
                }))
                &&& (!fleet_covers(old(self).ships_view(), pos.x(), pos.y())
                    ==> r == Some(AttackInfo::Miss))
            },
    {
        let (x8, y8) = pos.coords();
        let idx = (y8 as usize) * 10 + (x8 as usize);
        proof {
            assert(idx as int == pos.y() * 10 + pos.x());
        }
        if self.hitmap[idx] {
            return None;
        }
        self.hitmap.set(idx, true);
        proof {
            lemma_count_true_set(old(self).hitmap@, idx as int);
            assert(shipref_matches_first(self.ships@, 5, self.shipmap@[pos.y() * 10 + pos.x()],
                pos.x(), pos.y()));
        }
        let sref = self.shipmap[idx];
        match sref.inner() {
            None => {
                proof {
                    assert(!fleet_covers(self.ships@, pos.x(), pos.y()));
                }
                Some(AttackInfo::Miss)
            }
            Some(si) => {
                let ghost plans = self.ships@;
                let ghost hm = self.hitmap@;
                let ghost plan = plans[si as int];
                let ship = self.ships.get(si as usize);
                let len8 = match ship.plan() {
                    ShipPlan::Horizontal { pos: _, len } => len,
                    ShipPlan::Vertical { pos: _, len } => len,
                };
                let mut all = true;
                let mut k: u8 = 0;
                while k < len8
                    invariant
                        self.ships@ == plans,
                        self.hitmap@ == hm,
                        self.hitmap@.len() == 100,
                        si < 5,
                        plan == plans[si as int],
                        plan.wf(),
                        ship@ == plan,
                        k <= len8,
                        len8 as int == plan.length(),
                        all == cells_hit_first(hm, plan, k as int),
                    decreases len8 - k,
                {
                    let cpos = ship.cell(k);
                    let (cx, cy) = cpos.coords();
                    let cidx = (cy as usize) * 10 + (cx as usize);
                    proof {
                        assert(cidx as int == cell_y(plan, k as int) * 10 + cell_x(plan, k as int));
                    }
                    let cell_was_hit = self.hitmap[cidx];
                    proof {
                        assert(hm[cell_y(plan, k as int) * 10 + cell_x(plan, k as int)]
                            == cell_was_hit);
                        assert(cells_hit_first(hm, plan, k as int + 1)
                            == (cells_hit_first(hm, plan, k as int) && cell_was_hit));
                    }
                    if !cell_was_hit {
                        all = false;
                    }
                    k = k + 1;
                }
                proof {
                    if all {
                        assert forall|x: int, y: int| 0 <= x < 10 && 0 <= y < 10
                            && #[trigger] self.ships_view()[si as int].covers(x, y) implies
                            self.hit(x, y) by {
                            lemma_covers_cells(plan, x, y);
                            let k = choose|k: int|
                                0 <= k < plan.length() && cell_x(plan, k) == x
                                    && cell_y(plan, k) == y;
                            assert(hm[cell_y(plan, k) * 10 + cell_x(plan, k)]);
                        }
                        assert(self.ship_sunk(si as int));
                    } else {
                        let k = choose|k: int|
                            0 <= k < len8 as int
                                && !hm[cell_y(plan, k) * 10 + #[trigger] cell_x(plan, k)];
                        assert(0 <= cell_x(plan, k) < 10 && 0 <= cell_y(plan, k) < 10);
                        assert(self.ships_view()[si as int].covers(cell_x(plan, k), cell_y(plan, k)));
                        assert(!self.hit(cell_x(plan, k), cell_y(plan, k)));
                        assert(!self.ship_sunk(si as int));
                    }
                    assert forall|j: int| 0 <= j < 5
                        && #[trigger] plans[j].covers(pos.x(), pos.y()) implies
                        all == self.ship_sunk(j) by {
                        assert(plans[si as int].covers(pos.x(), pos.y()));
                        if j < si as int {
                            assert(!plans[si as int].covers(pos.x(), pos.y()));
                        } else if j > si as int {
                            assert(!plans[j].covers(pos.x(), pos.y()));
                        }
                    }
                    assert(fleet_covers(plans, pos.x(), pos.y()));
                }
                Some(AttackInfo::Hit(all))
            }
        }
    }

    /// Whether every ship of the fleet has been fully targeted.
    pub fn allsunken(&self) -> (r: bool)
        requires
            self.wf(),
        ensures
            r == self.all_sunk(),
    {
        let ghost plans = self.ships@;
        let ghost hm = self.hitmap@;
        let mut all = true;
        let mut i: usize = 0;
        while i < 5
            invariant
                self.wf(),
                plans == self.ships@,
                hm == self.hitmap@,
                i <= 5,
                all == (forall|j: int| 0 <= j < i as int ==> #[trigger] self.ship_sunk(j)),
            decreases 5 - i,
        {
            let ship = self.ships.get(i);
            let ghost plan = plans[i as int];
            let len8 = match ship.plan() {
                ShipPlan::Horizontal { pos: _, len } => len,
                ShipPlan::Vertical { pos: _, len } => len,
            };
            let mut shipall = true;
            let mut k: u8 = 0;
            while k < len8
                invariant
                    self.ships@ == plans,
                    self.hitmap@ == hm,
                    self.hitmap@.len() == 100,
                    i < 5,
                    plan == plans[i as int],
                    plan.wf(),
                    ship@ == plan,
                    k <= len8,
                    len8 as int == plan.length(),
                    shipall == cells_hit_first(hm, plan, k as int),
                decreases len8 - k,
            {
                let cpos = ship.cell(k);
                let (cx, cy) = cpos.coords();
                let cidx = (cy as usize) * 10 + (cx as usize);
                proof {
                    assert(cidx as int == cell_y(plan, k as int) * 10 + cell_x(plan, k as int));
                }
                let cell_was_hit = self.hitmap[cidx];
                proof {
                    assert(hm[cell_y(plan, k as int) * 10 + cell_x(plan, k as int)]
                        == cell_was_hit);
                    assert(cells_hit_first(hm, plan, k as int + 1)
                        == (cells_hit_first(hm, plan, k as int) && cell_was_hit));
                }
                if !cell_was_hit {
                    shipall = false;
                }
                k = k + 1;
            }
            proof {
                if shipall {
                    assert forall|x: int, y: int| 0 <= x < 10 && 0 <= y < 10
                        && #[trigger] self.ships_view()[i as int].covers(x, y) implies
                        self.hit(x, y) by {
                        lemma_covers_cells(plan, x, y);
                        let k = choose|k: int|
                            0 <= k < plan.length() && cell_x(plan, k) == x && cell_y(plan, k) == y;
                        assert(hm[cell_y(plan, k) * 10 + cell_x(plan, k)]);
                    }
                    assert(self.ship_sunk(i as int));
                } else {
                    let k = choose|k: int|
                        0 <= k < len8 as int
                            && !hm[cell_y(plan, k) * 10 + #[trigger] cell_x(plan, k)];
                    assert(0 <= cell_x(plan, k) < 10 && 0 <= cell_y(plan, k) < 10);
                    assert(self.ships_view()[i as int].covers(cell_x(plan, k), cell_y(plan, k)));
                    assert(!self.hit(cell_x(plan, k), cell_y(plan, k)));
                    assert(!self.ship_sunk(i as int));
                }
                if !all {
                    let j = choose|j: int| 0 <= j < i as int && !(#[trigger] self.ship_sunk(j));
                    assert(!self.ship_sunk(j));
                }
            }
            if !shipall {
                all = false;
            }
            i = i + 1;
        }
        all
    }

    /// The board's fleet.
    pub fn ships(&self) -> (r: &Ships)
        ensures
            r@ == self.ships_view(),
    {
        &self.ships
    }
}

} // verus!
