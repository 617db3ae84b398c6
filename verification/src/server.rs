//! Server side: the per-connection middleware's command translation and the
//! match coordinator's state.
//!
//! A middleware task owns one socket and serves one command at a time: it
//! turns a [`CommandRequest`] into the wire message to send
//! ([`command_message`]) and the peer's reply into a [`CommandResult`]
//! ([`classify_reply`]).  The coordinator owns both players' boards and the
//! turn counter ([`Instance`]); it checks each result
//! ([`check_handshake`], [`extract_ships`], [`extract_target`],
//! [`check_success`]), applies the chosen target ([`Instance::apply_target`])
//! and picks the notices both players get ([`inform_commands`]).  The caller
//! only moves values between these functions and the wire.

use vstd::prelude::*;

use crate::logic;
use crate::logic::{AttackInfo, Board, Position, Ships};
use crate::prot;
use crate::prot::{ClientMessage, ServerMessage};

verus! {

/// Failures that abort a match.
#[derive(Debug, PartialEq, Eq)]
pub enum Error {
    /// A frame failed to decode, or the opening handshake went wrong.
    Protocol(prot::Error),
    /// A middleware answered a command with a result of the wrong shape.
    Middleware(CommandRequest, CommandResult),
    /// A player broke the game's rules, such as re-targeting a spent cell.
    Logic(logic::Error),
}

/// One command the coordinator issues to a middleware.
#[derive(Debug, Clone, Copy, PartialEq, Eq)]
pub enum CommandRequest {
    Handshake,
    RequestShips,
    RequestTarget,
    InformTargetSelection,
    InformTargetHitYou(Position, bool),
    InformTargetMissYou(Position),
    InformTargetHitOpp(Position, bool),
    InformTargetMissOpp(Position),
    InformVictory,
    InformLoss,
    TerminateConnection,
}

/// What one wire exchange produced for the issued command.
#[derive(Debug, Clone, Copy, PartialEq, Eq)]
pub enum CommandResult {
    /// The peer answered as the command expected.
    Success,
    /// The peer answered with a message of the wrong shape.
    Invalid,
    /// The peer submitted its fleet.
    GetShips(Ships),
    /// The peer chose a target.
    GetTarget(Position),
}

/// The wire message that serves one command.  For `Handshake` it is the
/// reply sent after the peer's own handshake arrived; for every other
/// command it opens the exchange.
pub open spec fn spec_command_message(cmd: CommandRequest) -> ServerMessage {
    match cmd {
        CommandRequest::Handshake => ServerMessage::Handshake,
        CommandRequest::RequestShips => ServerMessage::RequestShipPositions,
        CommandRequest::RequestTarget => ServerMessage::RequestTarget,
        CommandRequest::InformTargetSelection => ServerMessage::InformTargetSelection,
        CommandRequest::InformTargetHitYou(p, s) => ServerMessage::InformTargetHitYou(p, s),
        CommandRequest::InformTargetMissYou(p) => ServerMessage::InformTargetMissYou(p),
        CommandRequest::InformTargetHitOpp(p, s) => ServerMessage::InformTargetHitOpp(p, s),
        CommandRequest::InformTargetMissOpp(p) => ServerMessage::InformTargetMissOpp(p),
        CommandRequest::InformVictory => ServerMessage::InformVictory,
        CommandRequest::InformLoss => ServerMessage::InformLoss,
        CommandRequest::TerminateConnection => ServerMessage::TerminateConnection,
    }
}

/// The wire message a middleware sends for `cmd`.
pub fn command_message(cmd: &CommandRequest) -> (r: ServerMessage)
    ensures
        r == spec_command_message(*cmd),
{
    match *cmd {
        CommandRequest::Handshake => ServerMessage::Handshake,
        CommandRequest::RequestShips => ServerMessage::RequestShipPositions,
        CommandRequest::RequestTarget => ServerMessage::RequestTarget,
        CommandRequest::InformTargetSelection => ServerMessage::InformTargetSelection,
        CommandRequest::InformTargetHitYou(p, s) => ServerMessage::InformTargetHitYou(p, s),
        CommandRequest::InformTargetMissYou(p) => ServerMessage::InformTargetMissYou(p),
        CommandRequest::InformTargetHitOpp(p, s) => ServerMessage::InformTargetHitOpp(p, s),
        CommandRequest::InformTargetMissOpp(p) => ServerMessage::InformTargetMissOpp(p),
        CommandRequest::InformVictory => ServerMessage::InformVictory,
        CommandRequest::InformLoss => ServerMessage::InformLoss,
        CommandRequest::TerminateConnection => ServerMessage::TerminateConnection,
    }
}

/// How the peer's reply resolves one command: the expected reply shape gives
/// the command's payload (or plain success), anything else is `Invalid`.
pub open spec fn spec_classify_reply(cmd: CommandRequest, reply: ClientMessage) -> CommandResult {
    match (cmd, reply) {
        (CommandRequest::Handshake, ClientMessage::Handshake) => CommandResult::Success,
        (CommandRequest::RequestShips, ClientMessage::ShipPositions(s)) => CommandResult::GetShips(
            s,
        ),
        (CommandRequest::RequestTarget, ClientMessage::Target(p)) => CommandResult::GetTarget(p),
        (CommandRequest::InformTargetSelection, ClientMessage::Acknowledge) =>
            CommandResult::Success,
        (CommandRequest::InformTargetHitYou(_, _), ClientMessage::Acknowledge) =>
            CommandResult::Success,
        (CommandRequest::InformTargetMissYou(_), ClientMessage::Acknowledge) =>
            CommandResult::Success,
        (CommandRequest::InformTargetHitOpp(_, _), ClientMessage::Acknowledge) =>
            CommandResult::Success,
        (CommandRequest::InformTargetMissOpp(_), ClientMessage::Acknowledge) =>
            CommandResult::Success,
        (CommandRequest::InformVictory, ClientMessage::Acknowledge) => CommandResult::Success,
        (CommandRequest::InformLoss, ClientMessage::Acknowledge) => CommandResult::Success,
        (CommandRequest::TerminateConnection, ClientMessage::Acknowledge) =>
            CommandResult::Success,
        _ => CommandResult::Invalid,
    }
}

/// Resolves the peer's reply for `cmd`.
pub fn classify_reply(cmd: &CommandRequest, reply: ClientMessage) -> (r: CommandResult)
    ensures
        r == spec_classify_reply(*cmd, reply),
{
    match (*cmd, reply) {
        (CommandRequest::Handshake, ClientMessage::Handshake) => CommandResult::Success,
        (CommandRequest::RequestShips, ClientMessage::ShipPositions(s)) => CommandResult::GetShips(
            s,
        ),
        (CommandRequest::RequestTarget, ClientMessage::Target(p)) => CommandResult::GetTarget(p),
        (CommandRequest::InformTargetSelection, ClientMessage::Acknowledge) =>
            CommandResult::Success,
        (CommandRequest::InformTargetHitYou(_, _), ClientMessage::Acknowledge) =>
            CommandResult::Success,
        (CommandRequest::InformTargetMissYou(_), ClientMessage::Acknowledge) =>
            CommandResult::Success,
        (CommandRequest::InformTargetHitOpp(_, _), ClientMessage::Acknowledge) =>
            CommandResult::Success,
        (CommandRequest::InformTargetMissOpp(_), ClientMessage::Acknowledge) =>
            CommandResult::Success,
        (CommandRequest::InformVictory, ClientMessage::Acknowledge) => CommandResult::Success,
        (CommandRequest::InformLoss, ClientMessage::Acknowledge) => CommandResult::Success,
        (CommandRequest::TerminateConnection, ClientMessage::Acknowledge) =>
            CommandResult::Success,
        _ => CommandResult::Invalid,
    }
}

/// Checks one player's handshake result: anything but `Invalid` lets the
/// match proceed; `Invalid` aborts it with a handshake failure.
pub fn check_handshake(res: &CommandResult) -> (r: Result<(), Error>)
    ensures
        r is Ok <==> !(res is Invalid),
        r matches Err(e) ==> e matches Error::Protocol(pe) && pe is UnsuccessfulHandshake,
{
    match res {
        CommandResult::Invalid => Err(Error::Protocol(prot::Error::UnsuccessfulHandshake)),
        _ => Ok(()),
    }
}

/// Takes the fleet out of a ship-request result; any other shape is a
/// middleware mismatch.
pub fn extract_ships(res: CommandResult) -> (r: Result<Ships, Error>)
    ensures
        r is Ok <==> res is GetShips,
        r matches Ok(s) ==> res == CommandResult::GetShips(s),
        r matches Err(e) ==> e matches Error::Middleware(c, res2) && c
            == CommandRequest::RequestShips && res2 == res,
{
    match res {
        CommandResult::GetShips(ships) => Ok(ships),
        other => Err(Error::Middleware(CommandRequest::RequestShips, other)),
    }
}

/// Takes the target out of a target-request result; any other shape is a
/// middleware mismatch.
pub fn extract_target(res: CommandResult) -> (r: Result<Position, Error>)
    ensures
        r is Ok <==> res is GetTarget,
        r matches Ok(p) ==> res == CommandResult::GetTarget(p),
        r matches Err(e) ==> e matches Error::Middleware(c, res2) && c
            == CommandRequest::RequestTarget && res2 == res,
{
    match res {
        CommandResult::GetTarget(p) => Ok(p),
        other => Err(Error::Middleware(CommandRequest::RequestTarget, other)),
    }
}

/// Checks that a notice was acknowledged; any other shape is a middleware
/// mismatch naming the issued command.
pub fn check_success(cmd: &CommandRequest, res: CommandResult) -> (r: Result<(), Error>)
    ensures
        r is Ok <==> res is Success,
        r matches Err(e) ==> e matches Error::Middleware(c, res2) && c == *cmd && res2 == res,
{
    match res {
        CommandResult::Success => Ok(()),
        other => Err(Error::Middleware(*cmd, other)),
    }
}

/// The pair of notices one resolved shot produces: the first goes to the
/// active player (the opponent was struck), the second to the passive player
/// (their own board was).  Both carry the same cell and outcome.
pub fn inform_commands(target: Position, info: AttackInfo) -> (r: (CommandRequest, CommandRequest))
    ensures
        info matches AttackInfo::Hit(s) ==> r == (
            CommandRequest::InformTargetHitOpp(target, s),
            CommandRequest::InformTargetHitYou(target, s),
        ),
        info is Miss ==> r == (
            CommandRequest::InformTargetMissOpp(target),
            CommandRequest::InformTargetMissYou(target),
        ),
{
    match info {
        AttackInfo::Hit(s) => (
            CommandRequest::InformTargetHitOpp(target, s),
            CommandRequest::InformTargetHitYou(target, s),
        ),
        AttackInfo::Miss => (
            CommandRequest::InformTargetMissOpp(target),
            CommandRequest::InformTargetMissYou(target),
        ),
    }
}

/// One match's state: both players' boards and the turn counter, whose
/// parity selects the active player.
pub struct Instance {
    turn: u8,
    board0: Board,
    board1: Board,
}

impl Instance {
    /// Completed turns.
    pub closed spec fn turn_count(self) -> int {
        self.turn as int
    }

    /// The board of player `i`.
    pub closed spec fn board(self, i: int) -> Board {
        if i == 0 {
            self.board0
        } else {
            self.board1
        }
    }

    /// Which player acts this turn.
    pub open spec fn active_player(self) -> int {
        self.turn_count() % 2
    }

    /// Which player is shot at this turn.
    pub open spec fn passive_player(self) -> int {
        1 - self.active_player()
    }

    /// Both boards are consistent, and the turn counter never exceeds the
    /// cells targeted so far (each turn spends one fresh cell).
    pub closed spec fn wf(self) -> bool {
        &&& self.board0.wf()
        &&& self.board1.wf()
        &&& self.turn_count() <= self.board0.hits_count() + self.board1.hits_count()
    }

    /// Starts a match: turn zero, both boards fresh.
    pub fn new(ships0: Ships, ships1: Ships) -> (r: Instance)
        requires
            logic::fleet_valid(ships0@),
            logic::fleet_valid(ships1@),
        ensures
            r.wf(),
            r.turn_count() == 0,
            r.board(0).ships_view() == ships0@,
            r.board(1).ships_view() == ships1@,
            forall|x: int, y: int| 0 <= x < 10 && 0 <= y < 10 ==> !#[trigger] r.board(0).hit(x, y)
                && !r.board(1).hit(x, y),
    {
        Instance { turn: 0, board0: Board::new(ships0), board1: Board::new(ships1) }
    }

    /// The active player's index, `turn mod 2`.
    pub fn active(&self) -> (r: usize)
        ensures
            r as int == self.active_player(),
    {
        (self.turn % 2) as usize
    }

    /// The board of player `i`, for reading.
    pub fn board_ref(&self, i: usize) -> (r: &Board)
        requires
            i < 2,
        ensures
            *r == self.board(i as int),
    {
        if i == 0 {
            &self.board0
        } else {
            &self.board1
        }
    }

    /// Resolves one turn: applies the active player's chosen target to the
    /// passive player's board.  Re-targeting a spent cell is a fatal logic
    /// error.  Otherwise the shot lands: the result reports the hit or miss
    /// and whether it ended the match by sinking the last ship; the turn
    /// counter advances exactly when the match goes on.
    pub fn apply_target(&mut self, target: Position) -> (r: Result<(AttackInfo, bool), Error>)
        requires
            old(self).wf(),
            target.wf(),
        ensures
            final(self).wf(),
            final(self).board(0).ships_view() == old(self).board(0).ships_view(),
            final(self).board(1).ships_view() == old(self).board(1).ships_view(),
            final(self).board(old(self).active_player()) == old(self).board(
                old(self).active_player(),
            ),
            old(self).board(old(self).passive_player()).hit(target.x(), target.y()) ==> ({
                &&& r matches Err(Error::Logic(le)) && le is OccupiedTargetPosition
                &&& *final(self) == *old(self)
            }),
            !old(self).board(old(self).passive_player()).hit(target.x(), target.y()) ==> ({
                &&& r matches Ok((info, finished)) && ({
                    let pas = old(self).passive_player();
                    &&& forall|x: int, y: int| 0 <= x < 10 && 0 <= y < 10 ==>
                        #[trigger] final(self).board(pas).hit(x, y) == (old(self).board(pas).hit(
                            x,
                            y,
                        ) || (x == target.x() && y == target.y()))
                    &&& (logic::fleet_covers(old(self).board(pas).ships_view(), target.x(),
                        target.y()) ==> ({
                        &&& info matches AttackInfo::Hit(snk)
                        &&& forall|j: int|
                            0 <= j < 5 && #[trigger] old(self).board(pas).ships_view()[j].covers(
                                target.x(),
                                target.y(),
                            ) ==> snk == final(self).board(pas).ship_sunk(j)
                    }))
                    &&& (!logic::fleet_covers(old(self).board(pas).ships_view(), target.x(),
                        target.y()) ==> info == AttackInfo::Miss)
                    &&& finished == (info is Hit && final(self).board(pas).all_sunk())
                    &&& (finished ==> final(self).turn_count() == old(self).turn_count())
                    &&& (!finished ==> final(self).turn_count() == old(self).turn_count() + 1)
                })
            }),
    {
        proof {
            logic::lemma_board_hits_bound(self.board0);
            logic::lemma_board_hits_bound(self.board1);
        }
        let active = self.active();
        let info_opt = if active == 0 {
            self.board1.target(target)
        } else {
            self.board0.target(target)
        };
        let info = match info_opt {
            Some(info) => info,
            None => {
                return Err(Error::Logic(logic::Error::OccupiedTargetPosition));
            }
        };
        let finished = match info {
            AttackInfo::Hit(_) => {
                if active == 0 {
                    self.board1.allsunken()
                } else {
                    self.board0.allsunken()
                }
            }
            AttackInfo::Miss => false,
        };
        if !finished {
            self.turn = self.turn + 1;
        }
        Ok((info, finished))
    }
}

} // verus!
