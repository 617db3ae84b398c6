//! Wire codec: binary framing and the two closed message vocabularies.
//!
//! One frame is `[1 byte type marker][4 bytes body length, little-endian]
//! [body]`.  The crate never touches a socket: [`RawMessage::frame_bytes`]
//! renders a frame and [`u32_from_le_bytes`] reads the length prefix, while
//! the caller moves the bytes.  Each direction has its own closed vocabulary
//! ([`ClientMessage`], [`ServerMessage`]) with a total mapping to and from
//! raw frames; a frame outside the expected vocabulary is rejected with the
//! raw marker, length and body kept for diagnostics.

use vstd::prelude::*;

use crate::logic;
use crate::logic::{Position, Ship, ShipPlan, Ships};

verus! {

/// Protocol-level failures.
#[derive(Debug, PartialEq, Eq)]
pub enum Error {
    /// A frame that does not decode in the expected vocabulary, kept whole
    /// for diagnostics.
    Message { typemarker: u8, sizemarker: u32, body: Vec<u8> },
    /// The peer did not answer the opening handshake with a handshake.
    UnsuccessfulHandshake,
}

/// Whether `e` is the diagnostic error carrying exactly the frame
/// `(marker, body)`.
pub open spec fn is_frame_error(e: Error, marker: u8, body: Seq<u8>) -> bool {
    &&& e matches Error::Message { typemarker, sizemarker, body: b }
    &&& typemarker == marker
    &&& b@ == body
    &&& sizemarker as int == body.len()
}

impl Error {
    /// Wraps a rejected frame, keeping marker, length and body.
    pub fn from(value: RawMessage) -> (r: Error)
        requires
            value.body@.len() <= u32::MAX,
        ensures
            is_frame_error(r, value.typemarker, value.body@),
    {
        let sizemarker = value.body.len() as u32;
        Error::Message { typemarker: value.typemarker, sizemarker, body: value.body }
    }
}

/// A borrowed view of one frame's marker and body.
#[derive(Clone, Copy)]
pub struct RawMessageRef<'b> {
    pub typemarker: u8,
    pub body: &'b [u8],
}

/// One owned frame: the only unit that moves over the wire.
pub struct RawMessage {
    pub typemarker: u8,
    pub body: Vec<u8>,
}

impl RawMessage {
    /// Borrows the frame.
    pub fn as_ref(&self) -> (r: RawMessageRef)
        ensures
            r.typemarker == self.typemarker,
            r.body@ == self.body@,
    {
        RawMessageRef { typemarker: self.typemarker, body: self.body.as_slice() }
    }

    /// Renders the frame as it goes on the wire: marker, little-endian body
    /// length, body.
    pub fn frame_bytes(&self) -> (r: Vec<u8>)
        requires
            self.body@.len() <= u32::MAX,
        ensures
            r@ == seq![self.typemarker] + le_bytes(self.body@.len() as u32) + self.body@,
    {
        let mut out: Vec<u8> = Vec::new();
        out.push(self.typemarker);
        let len32 = self.body.len() as u32;
        let lenb = encode_len(len32);
        extend(&mut out, &lenb);
        extend(&mut out, &self.body);
        proof {
            assert(out@ =~= seq![self.typemarker] + le_bytes(len32) + self.body@);
        }
        out
    }
}

impl<'b> RawMessageRef<'b> {
    /// Copies the frame into an owned value.
    pub fn to_owned(self) -> (r: RawMessage)
        ensures
            r.typemarker == self.typemarker,
            r.body@ == self.body@,
    {
        RawMessage { typemarker: self.typemarker, body: vstd::slice::slice_to_vec(self.body) }
    }
}

/// The little-endian bytes of `n`.
pub open spec fn le_bytes(n: u32) -> Seq<u8> {
    seq![
        (n as int % 256) as u8,
        (n as int / 256 % 256) as u8,
        (n as int / 65536 % 256) as u8,
        (n as int / 16777216 % 256) as u8,
    ]
}

/// The value read from four little-endian bytes.
pub open spec fn le_value(b: Seq<u8>) -> int {
    b[0] + 256 * b[1] + 65536 * b[2] + 16777216 * b[3]
}

/// Reading back the four bytes of `n` yields `n`.
pub proof fn lemma_le_round_trip(n: u32)
    ensures
        le_value(le_bytes(n)) == n,
{
    assert(n % 256 + 256 * (n / 256 % 256) + 65536 * (n / 65536 % 256)
        + 16777216 * (n / 16777216 % 256) == n) by (bit_vector);
}

/// The little-endian length prefix of a frame body of length `n`.
pub fn encode_len(n: u32) -> (r: Vec<u8>)
    ensures
        r@ == le_bytes(n),
{
    let b0 = (n & 0xff) as u8;
    let b1 = ((n >> 8) & 0xff) as u8;
    let b2 = ((n >> 16) & 0xff) as u8;
    let b3 = ((n >> 24) & 0xff) as u8;
    proof {
        assert((n & 0xff) == n % 256 && ((n >> 8) & 0xff) == n / 256 % 256
            && ((n >> 16) & 0xff) == n / 65536 % 256
            && ((n >> 24) & 0xff) == n / 16777216 % 256) by (bit_vector);
    }
    let mut v: Vec<u8> = Vec::new();
    v.push(b0);
    v.push(b1);
    v.push(b2);
    v.push(b3);
    proof {
        assert(v@ =~= le_bytes(n));
    }
    v
}

/// Reads a frame's length prefix.
pub fn u32_from_le_bytes(b: &[u8; 4]) -> (r: u32)
    ensures
        r as int == le_value(b@),
{
    (b[0] as u32) + 256 * (b[1] as u32) + 65536 * (b[2] as u32) + 16777216 * (b[3] as u32)
}

fn extend(out: &mut Vec<u8>, src: &Vec<u8>)
    ensures
        final(out)@ == old(out)@ + src@,
{
    let mut i: usize = 0;
    while i < src.len()
        invariant
            i <= src@.len(),
            out@ == old(out)@ + src@.take(i as int),
        decreases src@.len() - i,
    {
        out.push(src[i]);
        i = i + 1;
        proof {
            assert(old(out)@ + src@.take(i as int) =~= (old(out)@ + src@.take(i as int - 1)).push(
                src@[i as int - 1]));
        }
    }
    proof {
        assert(src@.take(src@.len() as int) =~= src@);
    }
}

fn bytes_eq(a: &Vec<u8>, b: &Vec<u8>) -> (r: bool)
    ensures
        r == (a@ == b@),
{
    if a.len() != b.len() {
        return false;
    }
    let mut i: usize = 0;
    while i < a.len()
        invariant
            a@.len() == b@.len(),
            i <= a@.len(),
            forall|j: int| 0 <= j < i as int ==> a@[j] == b@[j],
        decreases a@.len() - i,
    {
        if a[i] != b[i] {
            return false;
        }
        i = i + 1;
    }
    proof {
        assert(a@ =~= b@);
    }
    true
}

/// Body of the handshake frame: the literal `HELO`.
pub open spec fn handshake_body() -> Seq<u8> {
    seq![72u8, 69u8, 76u8, 79u8]
}

/// Body of the acknowledge frame: the literal `ACK`.
pub open spec fn ack_body() -> Seq<u8> {
    seq![65u8, 67u8, 75u8]
}

/// Body of the invalid frame: the literal `INVALID`.
pub open spec fn invalid_body() -> Seq<u8> {
    seq![73u8, 78u8, 86u8, 65u8, 76u8, 73u8, 68u8]
}

/// Body of the terminate frame: the literal `TERM`.
pub open spec fn term_body() -> Seq<u8> {
    seq![84u8, 69u8, 82u8, 77u8]
}

/// Body of the ship-positions request: the literal `REQ SHIPP`.
pub open spec fn reqships_body() -> Seq<u8> {
    seq![82u8, 69u8, 81u8, 32u8, 83u8, 72u8, 73u8, 80u8, 80u8]
}

/// Body of the target request: the literal `TARG`.
pub open spec fn reqtarget_body() -> Seq<u8> {
    seq![84u8, 65u8, 82u8, 71u8]
}

/// Body of the target-selection notice: the literal `INFO TARG`.
pub open spec fn informsel_body() -> Seq<u8> {
    seq![73u8, 78u8, 70u8, 79u8, 32u8, 84u8, 65u8, 82u8, 71u8]
}

/// Body of the victory notice: the literal `VICTORY`.
pub open spec fn victory_body() -> Seq<u8> {
    seq![86u8, 73u8, 67u8, 84u8, 79u8, 82u8, 89u8]
}

/// Body of the loss notice: the literal `LOSS`.
pub open spec fn loss_body() -> Seq<u8> {
    seq![76u8, 79u8, 83u8, 83u8]
}

fn handshake_vec() -> (r: Vec<u8>)
    ensures
        r@ == handshake_body(),
{
    let v = vec![72u8, 69u8, 76u8, 79u8];
    proof {
        assert(v@ =~= handshake_body());
    }
    v
}

fn ack_vec() -> (r: Vec<u8>)
    ensures
        r@ == ack_body(),
{
    let v = vec![65u8, 67u8, 75u8];
    proof {
        assert(v@ =~= ack_body());
    }
    v
}

fn invalid_vec() -> (r: Vec<u8>)
    ensures
        r@ == invalid_body(),
{
    let v = vec![73u8, 78u8, 86u8, 65u8, 76u8, 73u8, 68u8];
    proof {
        assert(v@ =~= invalid_body());
    }
    v
}

fn term_vec() -> (r: Vec<u8>)
    ensures
        r@ == term_body(),
{
    let v = vec![84u8, 69u8, 82u8, 77u8];
    proof {
        assert(v@ =~= term_body());
    }
    v
}

fn reqships_vec() -> (r: Vec<u8>)
    ensures
        r@ == reqships_body(),
{
    let v = vec![82u8, 69u8, 81u8, 32u8, 83u8, 72u8, 73u8, 80u8, 80u8];
    proof {
        assert(v@ =~= reqships_body());
    }
    v
}

fn reqtarget_vec() -> (r: Vec<u8>)
    ensures
        r@ == reqtarget_body(),
{
    let v = vec![84u8, 65u8, 82u8, 71u8];
    proof {
        assert(v@ =~= reqtarget_body());
    }
    v
}

fn informsel_vec() -> (r: Vec<u8>)
    ensures
        r@ == informsel_body(),
{
    let v = vec![73u8, 78u8, 70u8, 79u8, 32u8, 84u8, 65u8, 82u8, 71u8];
    proof {
        assert(v@ =~= informsel_body());
    }
    v
}

fn victory_vec() -> (r: Vec<u8>)
    ensures
        r@ == victory_body(),
{
    let v = vec![86u8, 73u8, 67u8, 84u8, 79u8, 82u8, 89u8];
    proof {
        assert(v@ =~= victory_body());
    }
    v
}

fn loss_vec() -> (r: Vec<u8>)
    ensures
        r@ == loss_body(),
{
    let v = vec![76u8, 79u8, 83u8, 83u8];
    proof {
        assert(v@ =~= loss_body());
    }
    v
}

/// The byte a position is sent as.
pub open spec fn pos_byte(p: Position) -> u8 {
    p.as_byte() as u8
}

/// The three bytes one ship is sent as: orientation, anchor byte, length.
pub open spec fn plan_triple(p: ShipPlan) -> Seq<u8> {
    seq![
        if p.horizontal() { 1u8 } else { 0u8 },
        pos_byte(p.anchor()),
        p.length() as u8,
    ]
}

/// The 15-byte body of a ship-positions message: one triple per ship, in
/// fleet order.
pub open spec fn ships_body(s: Seq<ShipPlan>) -> Seq<u8> {
    plan_triple(s[0]) + plan_triple(s[1]) + plan_triple(s[2]) + plan_triple(s[3]) + plan_triple(s[4])
}

/// The ship plan read from one triple of body bytes.
pub open spec fn triple_plan(o: u8, b: u8, l: u8) -> ShipPlan {
    if o != 0 {
        ShipPlan::Horizontal { pos: logic::position_from_byte(b), len: l }
    } else {
        ShipPlan::Vertical { pos: logic::position_from_byte(b), len: l }
    }
}

/// The five ship plans read from a 15-byte body.
pub open spec fn body_plans(body: Seq<u8>) -> Seq<ShipPlan> {
    Seq::new(5, |i: int| triple_plan(body[3 * i], body[3 * i + 1], body[3 * i + 2]))
}

/// Messages a client sends to the server.
#[derive(Debug, Clone, Copy, PartialEq, Eq)]
pub enum ClientMessage {
    Handshake,
    Acknowledge,
    ShipPositions(Ships),
    Target(Position),
}

/// Messages the server sends to a client.
#[derive(Debug, Clone, Copy, PartialEq, Eq)]
pub enum ServerMessage {
    Handshake,
    Invalid,
    RequestShipPositions,
    RequestTarget,
    InformTargetSelection,
    InformTargetHitYou(Position, bool),
    InformTargetMissYou(Position),
    InformTargetHitOpp(Position, bool),
    InformTargetMissOpp(Position),
    InformVictory,
    InformLoss,
    TerminateConnection,
}

/// The type marker a client message is framed with.
pub open spec fn client_marker(m: ClientMessage) -> u8 {
    match m {
        ClientMessage::Handshake => 1,
        ClientMessage::Acknowledge => 2,
        ClientMessage::ShipPositions(_) => 100,
        ClientMessage::Target(_) => 101,
    }
}

/// The body a client message is framed with.
pub open spec fn client_body(m: ClientMessage) -> Seq<u8> {
    match m {
        ClientMessage::Handshake => handshake_body(),
        ClientMessage::Acknowledge => ack_body(),
        ClientMessage::ShipPositions(s) => ships_body(s@),
        ClientMessage::Target(p) => seq![pos_byte(p)],
    }
}

/// The payloads of a client message lie on the grid and form a valid fleet.
pub open spec fn client_msg_wf(m: ClientMessage) -> bool {
    match m {
        ClientMessage::Handshake => true,
        ClientMessage::Acknowledge => true,
        ClientMessage::ShipPositions(s) => logic::fleet_valid(s@),
        ClientMessage::Target(p) => p.wf(),
    }
}

/// Which raw frames the client vocabulary accepts.
pub open spec fn client_accepts(marker: u8, body: Seq<u8>) -> bool {
    ||| marker == 1 && body == handshake_body()
    ||| marker == 2 && body == ack_body()
    ||| marker == 100 && body.len() == 15 && logic::fleet_valid(body_plans(body))
    ||| marker == 101 && body.len() == 1 && logic::position_from_byte(body[0]).wf()
}

/// What an accepted raw frame decodes to in the client vocabulary.
pub open spec fn client_decoded(marker: u8, body: Seq<u8>, m: ClientMessage) -> bool {
    match m {
        ClientMessage::Handshake => marker == 1,
        ClientMessage::Acknowledge => marker == 2,
        ClientMessage::ShipPositions(s) => marker == 100 && s@ == body_plans(body),
        ClientMessage::Target(p) => marker == 101 && body.len() == 1 && p
            == logic::position_from_byte(body[0]),
    }
}

fn parse_plan(body: &Vec<u8>, base: usize) -> (r: Option<Ship>)
    requires
        body@.len() == 15,
        base + 3 <= 15,
    ensures
        r is Some <==> triple_plan(body@[base as int], body@[base as int + 1],
            body@[base as int + 2]).wf(),
        r matches Some(s) ==> s@ == triple_plan(body@[base as int], body@[base as int + 1],
            body@[base as int + 2]),
{
    let horizontal = body[base] != 0;
    let pos = match Position::frombyte(body[base + 1]) {
        Some(p) => p,
        None => {
            proof {
                logic::lemma_position_from_byte(body@[base as int + 1]);
            }
            return None;
        }
    };
    let len = body[base + 2];
    let plan = if horizontal {
        ShipPlan::Horizontal { pos, len }
    } else {
        ShipPlan::Vertical { pos, len }
    };
    match Ship::try_from(plan) {
        Ok(s) => Some(s),
        Err(_) => None,
    }
}

fn parse_ships(body: &Vec<u8>) -> (r: Option<Ships>)
    requires
        body@.len() == 15,
    ensures
        r is Some <==> logic::fleet_valid(body_plans(body@)),
        r matches Some(s) ==> s@ == body_plans(body@),
{
    let ghost plans = body_plans(body@);
    let s0 = match parse_plan(body, 0) {
        Some(s) => s,
        None => {
            proof {
                assert(!body_plans(body@)[0].wf());
            }
            return None;
        }
    };
    let s1 = match parse_plan(body, 3) {
        Some(s) => s,
        None => {
            proof {
                assert(!body_plans(body@)[1].wf());
            }
            return None;
        }
    };
    let s2 = match parse_plan(body, 6) {
        Some(s) => s,
        None => {
            proof {
                assert(!body_plans(body@)[2].wf());
            }
            return None;
        }
    };
    let s3 = match parse_plan(body, 9) {
        Some(s) => s,
        None => {
            proof {
                assert(!body_plans(body@)[3].wf());
            }
            return None;
        }
    };
    let s4 = match parse_plan(body, 12) {
        Some(s) => s,
        None => {
            proof {
                assert(!body_plans(body@)[4].wf());
            }
            return None;
        }
    };
    let arr = [s0, s1, s2, s3, s4];
    proof {
        assert(logic::plans_of(arr) =~= plans);
    }
    match Ships::try_from(arr) {
        Ok(ships) => Some(ships),
        Err(_) => None,
    }
}

impl ClientMessage {
    /// Decodes a raw frame in the client-to-server vocabulary; a frame whose
    /// marker or body does not fit is returned whole inside the error.
    pub fn try_from(message: RawMessage) -> (r: Result<ClientMessage, Error>)
        requires
            message.body@.len() <= u32::MAX,
        ensures
            r is Ok <==> client_accepts(message.typemarker, message.body@),
            r matches Ok(m) ==> client_decoded(message.typemarker, message.body@, m)
                && client_msg_wf(m),
            r matches Err(e) ==> is_frame_error(e, message.typemarker, message.body@),
    {
        if message.typemarker == 1 {
            let w = handshake_vec();
            if bytes_eq(&message.body, &w) {
                return Ok(ClientMessage::Handshake);
            }
        } else if message.typemarker == 2 {
            let w = ack_vec();
            if bytes_eq(&message.body, &w) {
                return Ok(ClientMessage::Acknowledge);
            }
        } else if message.typemarker == 100 {
            if message.body.len() == 15 {
                if let Some(ships) = parse_ships(&message.body) {
                    return Ok(ClientMessage::ShipPositions(ships));
                }
            }
        } else if message.typemarker == 101 {
            if message.body.len() == 1 {
                if let Some(p) = Position::frombyte(message.body[0]) {
                    return Ok(ClientMessage::Target(p));
                }
                proof {
                    logic::lemma_position_from_byte(message.body@[0]);
                }
            }
        }
        Err(Error::from(message))
    }

    /// Encodes the message as a raw frame.
    pub fn to_raw(self) -> (r: RawMessage)
        ensures
            r.typemarker == client_marker(self),
            r.body@ == client_body(self),
    {
        match self {
            ClientMessage::Handshake => RawMessage { typemarker: 1, body: handshake_vec() },
            ClientMessage::Acknowledge => RawMessage { typemarker: 2, body: ack_vec() },
            ClientMessage::ShipPositions(ships) => {
                let mut body: Vec<u8> = Vec::new();
                let a = ships.asarray();
                push_plan(&mut body, a[0]);
                push_plan(&mut body, a[1]);
                push_plan(&mut body, a[2]);
                push_plan(&mut body, a[3]);
                push_plan(&mut body, a[4]);
                proof {
                    assert(body@ =~= ships_body(ships@));
                }
                RawMessage { typemarker: 100, body }
            }
            ClientMessage::Target(pos) => {
                let mut body: Vec<u8> = Vec::new();
                body.push(pos.byte());
                proof {
                    assert(body@ =~= seq![pos_byte(pos)]);
                }
                RawMessage { typemarker: 101, body }
            }
        }
    }
}

fn push_plan(body: &mut Vec<u8>, ship: Ship)
    ensures
        final(body)@ == old(body)@ + plan_triple(ship@),
{
    match ship.plan() {
        ShipPlan::Horizontal { pos, len } => {
            body.push(1);
            body.push(pos.byte());
            body.push(len);
        }
        ShipPlan::Vertical { pos, len } => {
            body.push(0);
            body.push(pos.byte());
            body.push(len);
        }
    }
    proof {
        assert(body@ =~= old(body)@ + plan_triple(ship@));
    }
}

/// The type marker a server message is framed with.
pub open spec fn server_marker(m: ServerMessage) -> u8 {
    match m {
        ServerMessage::Handshake => 1,
        ServerMessage::Invalid => 3,
        ServerMessage::RequestShipPositions => 100,
        ServerMessage::RequestTarget => 101,
        ServerMessage::InformTargetSelection => 150,
        ServerMessage::InformTargetHitYou(_, _) => 151,
        ServerMessage::InformTargetMissYou(_) => 152,
        ServerMessage::InformTargetHitOpp(_, _) => 151,
        ServerMessage::InformTargetMissOpp(_) => 152,
        ServerMessage::InformVictory => 153,
        ServerMessage::InformLoss => 154,
        ServerMessage::TerminateConnection => 4,
    }
}

/// The body a server message is framed with.  Hit and miss notices carry
/// `who` first: `0` for "you were struck", `1` for "your opponent was".
pub open spec fn server_body(m: ServerMessage) -> Seq<u8> {
    match m {
        ServerMessage::Handshake => handshake_body(),
        ServerMessage::Invalid => invalid_body(),
        ServerMessage::RequestShipPositions => reqships_body(),
        ServerMessage::RequestTarget => reqtarget_body(),
        ServerMessage::InformTargetSelection => informsel_body(),
        ServerMessage::InformTargetHitYou(p, s) => seq![0u8, pos_byte(p), if s { 1u8 } else { 0u8 }],
        ServerMessage::InformTargetMissYou(p) => seq![0u8, pos_byte(p)],
        ServerMessage::InformTargetHitOpp(p, s) => seq![1u8, pos_byte(p), if s { 1u8 } else { 0u8 }],
        ServerMessage::InformTargetMissOpp(p) => seq![1u8, pos_byte(p)],
        ServerMessage::InformVictory => victory_body(),
        ServerMessage::InformLoss => loss_body(),
        ServerMessage::TerminateConnection => term_body(),
    }
}

/// The positions a server message carries lie on the grid.
pub open spec fn server_msg_wf(m: ServerMessage) -> bool {
    match m {
        ServerMessage::InformTargetHitYou(p, _) => p.wf(),
        ServerMessage::InformTargetMissYou(p) => p.wf(),
        ServerMessage::InformTargetHitOpp(p, _) => p.wf(),
        ServerMessage::InformTargetMissOpp(p) => p.wf(),
        _ => true,
    }
}

/// Which raw frames the server vocabulary accepts.
pub open spec fn server_accepts(marker: u8, body: Seq<u8>) -> bool {
    ||| marker == 1 && body == handshake_body()
    ||| marker == 3 && body == invalid_body()
    ||| marker == 4 && body == term_body()
    ||| marker == 100 && body == reqships_body()
    ||| marker == 101 && body == reqtarget_body()
    ||| marker == 150 && body == informsel_body()
    ||| marker == 151 && body.len() == 3 && (body[0] == 0 || body[0] == 1)
        && logic::position_from_byte(body[1]).wf()
    ||| marker == 152 && body.len() == 2 && (body[0] == 0 || body[0] == 1)
        && logic::position_from_byte(body[1]).wf()
    ||| marker == 153 && body == victory_body()
    ||| marker == 154 && body == loss_body()
}

/// What an accepted raw frame decodes to in the server vocabulary.
pub open spec fn server_decoded(marker: u8, body: Seq<u8>, m: ServerMessage) -> bool {
    match m {
        ServerMessage::Handshake => marker == 1,
        ServerMessage::Invalid => marker == 3,
        ServerMessage::RequestShipPositions => marker == 100,
        ServerMessage::RequestTarget => marker == 101,
        ServerMessage::InformTargetSelection => marker == 150,
        ServerMessage::InformTargetHitYou(p, s) => marker == 151 && body.len() == 3 && body[0] == 0
            && p == logic::position_from_byte(body[1]) && s == (body[2] != 0),
        ServerMessage::InformTargetHitOpp(p, s) => marker == 151 && body.len() == 3 && body[0] == 1
            && p == logic::position_from_byte(body[1]) && s == (body[2] != 0),
        ServerMessage::InformTargetMissYou(p) => marker == 152 && body.len() == 2 && body[0] == 0
            && p == logic::position_from_byte(body[1]),
        ServerMessage::InformTargetMissOpp(p) => marker == 152 && body.len() == 2 && body[0] == 1
            && p == logic::position_from_byte(body[1]),
        ServerMessage::InformVictory => marker == 153,
        ServerMessage::InformLoss => marker == 154,
        ServerMessage::TerminateConnection => marker == 4,
    }
}

impl ServerMessage {
    /// Decodes a raw frame in the server-to-client vocabulary; a frame whose
    /// marker or body does not fit is returned whole inside the error.
    pub fn try_from(message: RawMessage) -> (r: Result<ServerMessage, Error>)
        requires
            message.body@.len() <= u32::MAX,
        ensures
            r is Ok <==> server_accepts(message.typemarker, message.body@),
            r matches Ok(m) ==> server_decoded(message.typemarker, message.body@, m)
                && server_msg_wf(m),
            r matches Err(e) ==> is_frame_error(e, message.typemarker, message.body@),
    {
        if message.typemarker == 1 {
            let w = handshake_vec();
            if bytes_eq(&message.body, &w) {
                return Ok(ServerMessage::Handshake);
            }
        } else if message.typemarker == 3 {
            let w = invalid_vec();
            if bytes_eq(&message.body, &w) {
                return Ok(ServerMessage::Invalid);
            }
        } else if message.typemarker == 4 {
            let w = term_vec();
            if bytes_eq(&message.body, &w) {
                return Ok(ServerMessage::TerminateConnection);
            }
        } else if message.typemarker == 100 {
            let w = reqships_vec();
            if bytes_eq(&message.body, &w) {
                return Ok(ServerMessage::RequestShipPositions);
            }
        } else if message.typemarker == 101 {
            let w = reqtarget_vec();
            if bytes_eq(&message.body, &w) {
                return Ok(ServerMessage::RequestTarget);
            }
        } else if message.typemarker == 150 {
            let w = informsel_vec();
            if bytes_eq(&message.body, &w) {
                return Ok(ServerMessage::InformTargetSelection);
            }
        } else if message.typemarker == 151 {
            if message.body.len() == 3 && (message.body[0] == 0 || message.body[0] == 1) {
                let sunken = message.body[2] != 0;
                if let Some(p) = Position::frombyte(message.body[1]) {
                    if message.body[0] == 0 {
                        return Ok(ServerMessage::InformTargetHitYou(p, sunken));
                    } else {
                        return Ok(ServerMessage::InformTargetHitOpp(p, sunken));
                    }
                }
                proof {
                    logic::lemma_position_from_byte(message.body@[1]);
                }
            }
        } else if message.typemarker == 152 {
            if message.body.len() == 2 && (message.body[0] == 0 || message.body[0] == 1) {
                if let Some(p) = Position::frombyte(message.body[1]) {
                    if message.body[0] == 0 {
                        return Ok(ServerMessage::InformTargetMissYou(p));
                    } else {
                        return Ok(ServerMessage::InformTargetMissOpp(p));
                    }
                }
                proof {
                    logic::lemma_position_from_byte(message.body@[1]);
                }
            }
        } else if message.typemarker == 153 {
            let w = victory_vec();
            if bytes_eq(&message.body, &w) {
                return Ok(ServerMessage::InformVictory);
            }
        } else if message.typemarker == 154 {
            let w = loss_vec();
            if bytes_eq(&message.body, &w) {
                return Ok(ServerMessage::InformLoss);
            }
        }
        Err(Error::from(message))
    }

    /// Encodes the message as a raw frame.
    pub fn to_raw(self) -> (r: RawMessage)
        ensures
            r.typemarker == server_marker(self),
            r.body@ == server_body(self),
    {
        match self {
            ServerMessage::Handshake => RawMessage { typemarker: 1, body: handshake_vec() },
            ServerMessage::Invalid => RawMessage { typemarker: 3, body: invalid_vec() },
            ServerMessage::RequestShipPositions => RawMessage {
                typemarker: 100,
                body: reqships_vec(),
            },
            ServerMessage::RequestTarget => RawMessage { typemarker: 101, body: reqtarget_vec() },
            ServerMessage::InformTargetSelection => RawMessage {
                typemarker: 150,
                body: informsel_vec(),
            },
            ServerMessage::InformTargetHitYou(p, s) => RawMessage {
                typemarker: 151,
                body: who_pos_sunken_vec(0, p, s),
            },
            ServerMessage::InformTargetHitOpp(p, s) => RawMessage {
                typemarker: 151,
                body: who_pos_sunken_vec(1, p, s),
            },
            ServerMessage::InformTargetMissYou(p) => RawMessage {
                typemarker: 152,
                body: who_pos_vec(0, p),
            },
            ServerMessage::InformTargetMissOpp(p) => RawMessage {
                typemarker: 152,
                body: who_pos_vec(1, p),
            },
            ServerMessage::InformVictory => RawMessage { typemarker: 153, body: victory_vec() },
            ServerMessage::InformLoss => RawMessage { typemarker: 154, body: loss_vec() },
            ServerMessage::TerminateConnection => RawMessage { typemarker: 4, body: term_vec() },
        }
    }
}

fn who_pos_sunken_vec(who: u8, p: Position, s: bool) -> (r: Vec<u8>)
    ensures
        r@ == seq![who, pos_byte(p), if s { 1u8 } else { 0u8 }],
{
    let mut v: Vec<u8> = Vec::new();
    v.push(who);
    v.push(p.byte());
    v.push(if s { 1 } else { 0 });
    proof {
        assert(v@ =~= seq![who, pos_byte(p), if s { 1u8 } else { 0u8 }]);
    }
    v
}

fn who_pos_vec(who: u8, p: Position) -> (r: Vec<u8>)
    ensures
        r@ == seq![who, pos_byte(p)],
{
    let mut v: Vec<u8> = Vec::new();
    v.push(who);
    v.push(p.byte());
    proof {
        assert(v@ =~= seq![who, pos_byte(p)]);
    }
    v
}

/// Law: every well-formed client message round-trips through the codec.  Its
/// encoding is accepted by the client-vocabulary decoder, and the only
/// message that encoding decodes to is the message itself.
pub proof fn lemma_client_message_round_trip(m: ClientMessage)
    requires
        client_msg_wf(m),
    ensures
        client_accepts(client_marker(m), client_body(m)),
        forall|m2: ClientMessage| #[trigger] client_decoded(client_marker(m), client_body(m), m2)
            ==> m2 == m,
{
    match m {
        ClientMessage::Handshake => {
        }
        ClientMessage::Acknowledge => {
        }
        ClientMessage::Target(p) => {
            logic::lemma_position_round_trip(p);
        }
        ClientMessage::ShipPositions(s) => {
            let body = ships_body(s@);
            assert(body.len() == 15);
            assert forall|i: int| 0 <= i < 5 implies #[trigger] body_plans(body)[i] == s@[i] by {
                logic::lemma_position_round_trip(s@[i].anchor());
                if i == 0 {
                    assert(body[0] == plan_triple(s@[0])[0]);
                    assert(body[1] == plan_triple(s@[0])[1]);
                    assert(body[2] == plan_triple(s@[0])[2]);
                } else if i == 1 {
                    assert(body[3] == plan_triple(s@[1])[0]);
                    assert(body[4] == plan_triple(s@[1])[1]);
                    assert(body[5] == plan_triple(s@[1])[2]);
                } else if i == 2 {
                    assert(body[6] == plan_triple(s@[2])[0]);
                    assert(body[7] == plan_triple(s@[2])[1]);
                    assert(body[8] == plan_triple(s@[2])[2]);
                } else if i == 3 {
                    assert(body[9] == plan_triple(s@[3])[0]);
                    assert(body[10] == plan_triple(s@[3])[1]);
                    assert(body[11] == plan_triple(s@[3])[2]);
                } else {
                    assert(body[12] == plan_triple(s@[4])[0]);
                    assert(body[13] == plan_triple(s@[4])[1]);
                    assert(body[14] == plan_triple(s@[4])[2]);
                }
            }
            assert(body_plans(body) =~= s@);
            assert forall|m2: ClientMessage| #[trigger] client_decoded(client_marker(m),
                client_body(m), m2) implies m2 == m by {
                if let ClientMessage::ShipPositions(s2) = m2 {
                    logic::lemma_ships_view_injective(s2, s);
                }
            }
        }
    }
}

/// Law: every well-formed server message round-trips through the codec.  Its
/// encoding is accepted by the server-vocabulary decoder, and the only
/// message that encoding decodes to is the message itself.
pub proof fn lemma_server_message_round_trip(m: ServerMessage)
    requires
        server_msg_wf(m),
    ensures
        server_accepts(server_marker(m), server_body(m)),
        forall|m2: ServerMessage| #[trigger] server_decoded(server_marker(m), server_body(m), m2)
            ==> m2 == m,
{
    match m {
        ServerMessage::InformTargetHitYou(p, _) => {
            logic::lemma_position_round_trip(p);
        }
        ServerMessage::InformTargetHitOpp(p, _) => {
            logic::lemma_position_round_trip(p);
        }
        ServerMessage::InformTargetMissYou(p) => {
            logic::lemma_position_round_trip(p);
        }
        ServerMessage::InformTargetMissOpp(p) => {
            logic::lemma_position_round_trip(p);
        }
        _ => {
        }
    }
}

} // verus!
