//! Client side: the state machine that mirrors the protocol from the peer's
//! end.
//!
//! A [`Client`] keeps the player's fleet, two 10x10 hit grids (own board and
//! opponent's), an append-only message log, and the decided outcome once a
//! victory or loss notice arrives.  [`Client::handle`] consumes one server
//! message and says what the caller must do next ([`Step`]); the caller owns
//! the socket and the [`UI`], and only moves values between them and the
//! state machine.

use vstd::prelude::*;

use crate::logic;
use crate::logic::{AttackInfo, Position, Ship, Ships};
use crate::prot;
use crate::prot::{ClientMessage, ServerMessage};

verus! {

/// One entry of the client's message log, newest last.
#[derive(Clone, Copy, PartialEq, Eq, Debug)]
pub enum Message {
    SuccessfullyConnected,
    SelectTarget,
    WaitForOpp,
    ShipHit,
    ShipSunken,
    ShipMissed,
    OppShipHit,
    OppShipSunken,
    OppShipMissed,
}

/// A read-only snapshot of the client's state, handed to the UI.  The hit
/// grids hold one cell per entry, row by row: index `y * 10 + x`.
pub struct ClientInfo<'i> {
    pub ships: &'i [Ship; 5],
    pub selfhits: &'i Vec<Option<AttackInfo>>,
    pub opphits: &'i Vec<Option<AttackInfo>>,
    pub message: &'i [Message],
}

/// A failure reported by the external UI.
pub struct UIError<E>(pub E);

/// The five operations an external front end supplies.  The client state
/// machine is written against this interface alone; nothing here is
/// verified, the implementation lives outside the crate.
pub trait UI {
    type Error;

    fn buildboard(&mut self) -> Result<Ships, UIError<Self::Error>>;

    fn displayboard(&mut self, info: ClientInfo) -> Result<(), UIError<Self::Error>>;

    fn selecttarget(&mut self, info: ClientInfo) -> Result<Position, UIError<Self::Error>>;

    fn displayvictory(&mut self, info: ClientInfo) -> Result<(), UIError<Self::Error>>;

    fn displayloss(&mut self, info: ClientInfo) -> Result<(), UIError<Self::Error>>;
}

/// What the caller must do after the state machine consumed one server
/// message.
#[derive(Debug, Clone, Copy, PartialEq, Eq)]
pub enum Step {
    /// Send this reply, then re-render.
    Reply(ClientMessage),
    /// Ask the UI for a target and send it as the reply.
    SelectTarget,
    /// Acknowledge; the match is over with the decided outcome, if any.
    Terminate,
    /// The server sent a message outside the request vocabulary.
    Unexpected,
}

/// Checks the server's answer to the opening handshake: anything but a
/// handshake fails the connection.
pub fn check_handshake_reply(reply: &ServerMessage) -> (r: Result<(), prot::Error>)
    ensures
        r is Ok <==> reply is Handshake,
        r matches Err(e) ==> e is UnsuccessfulHandshake,
{
    match reply {
        ServerMessage::Handshake => Ok(()),
        _ => Err(prot::Error::UnsuccessfulHandshake),
    }
}

/// The outcome one grid cell records after `handle` processed a notice about
/// it.
pub open spec fn grid_update(
    grid: Seq<Option<AttackInfo>>,
    p: Position,
    info: AttackInfo,
) -> Seq<Option<AttackInfo>> {
    grid.update(p.y() * 10 + p.x(), Some(info))
}

/// The player-side state of one match.
pub struct Client {
    ships: Ships,
    selfhits: Vec<Option<AttackInfo>>,
    opphits: Vec<Option<AttackInfo>>,
    message: Vec<Message>,
    victory: Option<bool>,
}

impl Client {
    /// The player's own fleet.
    pub closed spec fn fleet(self) -> Ships {
        self.ships
    }

    /// The grid of notices about the player's own board.
    pub closed spec fn selfhits_view(self) -> Seq<Option<AttackInfo>> {
        self.selfhits@
    }

    /// The grid of notices about the opponent's board.
    pub closed spec fn opphits_view(self) -> Seq<Option<AttackInfo>> {
        self.opphits@
    }

    /// The message log.
    pub closed spec fn log(self) -> Seq<Message> {
        self.message@
    }

    /// The decided outcome: `Some(true)` after a victory notice,
    /// `Some(false)` after a loss notice.
    pub closed spec fn decided(self) -> Option<bool> {
        self.victory
    }

    /// A valid fleet and full-size grids.
    pub closed spec fn wf(self) -> bool {
        &&& logic::fleet_valid(self.ships@)
        &&& self.selfhits@.len() == 100
        &&& self.opphits@.len() == 100
    }

    /// Starts the match on the player's side: empty grids, no outcome, and a
    /// log that records the successful connection.
    pub fn new(ships: Ships) -> (r: Client)
        requires
            logic::fleet_valid(ships@),
        ensures
            r.wf(),
            r.fleet() == ships,
            forall|c: int| 0 <= c < 100 ==> #[trigger] r.selfhits_view()[c] is None,
            forall|c: int| 0 <= c < 100 ==> #[trigger] r.opphits_view()[c] is None,
            r.log() == seq![Message::SuccessfullyConnected],
            r.decided() is None,
    {
        let selfhits = empty_grid();
        let opphits = empty_grid();
        let mut message: Vec<Message> = Vec::new();
        message.push(Message::SuccessfullyConnected);
        proof {
            assert(message@ =~= seq![Message::SuccessfullyConnected]);
        }
        Client { ships, selfhits, opphits, message, victory: None }
    }

    /// A snapshot of the current state for the UI.
    pub fn info(&self) -> (r: ClientInfo)
        ensures
            forall|i: int| 0 <= i < 5 ==> r.ships[i]@ == self.fleet()@[i],
            r.selfhits@ == self.selfhits_view(),
            r.opphits@ == self.opphits_view(),
            r.message@ == self.log(),
    {
        ClientInfo {
            ships: self.ships.asarray(),
            selfhits: &self.selfhits,
            opphits: &self.opphits,
            message: self.message.as_slice(),
        }
    }

    /// The decided outcome, if any notice has arrived.
    pub fn outcome(&self) -> (r: Option<bool>)
        ensures
            r == self.decided(),
    {
        self.victory
    }

    /// Consumes one server message: updates the grids, the log and the
    /// outcome exactly as the message dictates, and says what the caller
    /// must do next.
    pub fn handle(&mut self, request: ServerMessage) -> (r: Step)
        requires
            old(self).wf(),
            prot::server_msg_wf(request),
        ensures
            final(self).wf(),
            final(self).fleet() == old(self).fleet(),
            match request {
                ServerMessage::Handshake => r is Unexpected && *final(self) == *old(self),
                ServerMessage::Invalid => ({
                    &&& r matches Step::Reply(m) && m is Acknowledge
                    &&& *final(self) == *old(self)
                }),
                ServerMessage::RequestShipPositions => ({
                    &&& r matches Step::Reply(m) && m == ClientMessage::ShipPositions(
                        old(self).fleet(),
                    )
                    &&& *final(self) == *old(self)
                }),
                ServerMessage::RequestTarget => ({
                    &&& r is SelectTarget
                    &&& final(self).log() == old(self).log().push(Message::SelectTarget)
                    &&& final(self).selfhits_view() == old(self).selfhits_view()
                    &&& final(self).opphits_view() == old(self).opphits_view()
                    &&& final(self).decided() == old(self).decided()
                }),
                ServerMessage::InformTargetSelection => ({
                    &&& r matches Step::Reply(m) && m is Acknowledge
                    &&& final(self).log() == old(self).log().push(Message::WaitForOpp)
                    &&& final(self).selfhits_view() == old(self).selfhits_view()
                    &&& final(self).opphits_view() == old(self).opphits_view()
                    &&& final(self).decided() == old(self).decided()
                }),
                ServerMessage::InformTargetHitYou(p, s) => ({
                    &&& r matches Step::Reply(m) && m is Acknowledge
                    &&& final(self).log() == old(self).log().push(
                        if s {
                            Message::ShipSunken
                        } else {
                            Message::ShipHit
                        },
                    )
                    &&& final(self).selfhits_view() == grid_update(
                        old(self).selfhits_view(),
                        p,
                        AttackInfo::Hit(s),
                    )
                    &&& final(self).opphits_view() == old(self).opphits_view()
                    &&& final(self).decided() == old(self).decided()
                }),
                ServerMessage::InformTargetHitOpp(p, s) => ({
                    &&& r matches Step::Reply(m) && m is Acknowledge
                    &&& final(self).log() == old(self).log().push(
                        if s {
                            Message::OppShipSunken
                        } else {
                            Message::OppShipHit
                        },
                    )
                    &&& final(self).opphits_view() == grid_update(
                        old(self).opphits_view(),
                        p,
                        AttackInfo::Hit(s),
                    )
                    &&& final(self).selfhits_view() == old(self).selfhits_view()
                    &&& final(self).decided() == old(self).decided()
                }),
                ServerMessage::InformTargetMissYou(p) => ({
                    &&& r matches Step::Reply(m) && m is Acknowledge
                    &&& final(self).log() == old(self).log().push(Message::ShipMissed)
                    &&& final(self).selfhits_view() == grid_update(
                        old(self).selfhits_view(),
                        p,
                        AttackInfo::Miss,
                    )
                    &&& final(self).opphits_view() == old(self).opphits_view()
                    &&& final(self).decided() == old(self).decided()
                }),
                ServerMessage::InformTargetMissOpp(p) => ({
                    &&& r matches Step::Reply(m) && m is Acknowledge
                    &&& final(self).log() == old(self).log().push(Message::OppShipMissed)
                    &&& final(self).opphits_view() == grid_update(
                        old(self).opphits_view(),
                        p,
                        AttackInfo::Miss,
                    )
                    &&& final(self).selfhits_view() == old(self).selfhits_view()
                    &&& final(self).decided() == old(self).decided()
                }),
                ServerMessage::InformVictory => ({
                    &&& r matches Step::Reply(m) && m is Acknowledge
                    &&& final(self).decided() == Some(true)
                    &&& final(self).log() == old(self).log()
                    &&& final(self).selfhits_view() == old(self).selfhits_view()
                    &&& final(self).opphits_view() == old(self).opphits_view()
                }),
                ServerMessage::InformLoss => ({
                    &&& r matches Step::Reply(m) && m is Acknowledge
                    &&& final(self).decided() == Some(false)
                    &&& final(self).log() == old(self).log()
                    &&& final(self).selfhits_view() == old(self).selfhits_view()
                    &&& final(self).opphits_view() == old(self).opphits_view()
                }),
                ServerMessage::TerminateConnection => r is Terminate && *final(self) == *old(
                    self,
                ),
            },
    {
        match request {
            ServerMessage::Handshake => Step::Unexpected,
            ServerMessage::Invalid => Step::Reply(ClientMessage::Acknowledge),
            ServerMessage::RequestShipPositions => Step::Reply(
                ClientMessage::ShipPositions(self.ships),
            ),
            ServerMessage::RequestTarget => {
                self.message.push(Message::SelectTarget);
                Step::SelectTarget
            }
            ServerMessage::InformTargetSelection => {
                self.message.push(Message::WaitForOpp);
                Step::Reply(ClientMessage::Acknowledge)
            }
            ServerMessage::InformTargetHitYou(pos, sunken) => {
                self.message.push(
                    if sunken {
                        Message::ShipSunken
                    } else {
                        Message::ShipHit
                    },
                );
                let (x, y) = pos.coords();
                let idx = (y as usize) * 10 + (x as usize);
                self.selfhits.set(idx, Some(AttackInfo::Hit(sunken)));
                Step::Reply(ClientMessage::Acknowledge)
            }
            ServerMessage::InformTargetHitOpp(pos, sunken) => {
                self.message.push(
                    if sunken {
                        Message::OppShipSunken
                    } else {
                        Message::OppShipHit
                    },
                );
                let (x, y) = pos.coords();
                let idx = (y as usize) * 10 + (x as usize);
                self.opphits.set(idx, Some(AttackInfo::Hit(sunken)));
                Step::Reply(ClientMessage::Acknowledge)
            }
            ServerMessage::InformTargetMissYou(pos) => {
                self.message.push(Message::ShipMissed);
                let (x, y) = pos.coords();
                let idx = (y as usize) * 10 + (x as usize);
                self.selfhits.set(idx, Some(AttackInfo::Miss));
                Step::Reply(ClientMessage::Acknowledge)
            }
            ServerMessage::InformTargetMissOpp(pos) => {
                self.message.push(Message::OppShipMissed);
                let (x, y) = pos.coords();
                let idx = (y as usize) * 10 + (x as usize);
                self.opphits.set(idx, Some(AttackInfo::Miss));
                Step::Reply(ClientMessage::Acknowledge)
            }
            ServerMessage::InformVictory => {
                self.victory = Some(true);
                Step::Reply(ClientMessage::Acknowledge)
            }
            ServerMessage::InformLoss => {
                self.victory = Some(false);
                Step::Reply(ClientMessage::Acknowledge)
            }
            ServerMessage::TerminateConnection => Step::Terminate,
        }
    }
}

fn empty_grid() -> (r: Vec<Option<AttackInfo>>)
    ensures
        r@.len() == 100,
        forall|c: int| 0 <= c < 100 ==> #[trigger] r@[c] is None,
{
    let mut grid: Vec<Option<AttackInfo>> = Vec::new();
    let mut n: usize = 0;
    while n < 100
        invariant
            grid@.len() == n as int,
            n <= 100,
            forall|c: int| 0 <= c < n as int ==> #[trigger] grid@[c] is None,
        decreases 100 - n,
    {
        grid.push(None);
        n = n + 1;
    }
    grid
}

} // verus!
