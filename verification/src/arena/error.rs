//! The error taxonomy of the arena layer: what can go wrong for a single
//! engine, for a game, for a whole match, and on the network link.

use vstd::prelude::*;
use crate::board::Turn;

verus! {

/// What can go wrong while exchanging one message with an engine.
#[derive(Clone, Copy, PartialEq, Eq, Structural, Debug)]
pub enum PlayerError {
    IoError,
    ParseError,
    TimeoutError,
    BoardError,
}

/// How a single game can end abnormally, tagged with the offending colour.
#[derive(Clone, Copy, PartialEq, Eq, Structural, Debug)]
pub enum GameError {
    BlackInvalidMove,
    WhiteInvalidMove,
    BlackTimeout,
    WhiteTimeout,
    BlackCrash,
    WhiteCrash,
    UnexpectedError,
}

/// How a whole match can fail.
#[derive(Clone, Copy, PartialEq, Eq, Structural, Debug)]
pub enum ArenaError {
    EngineStartError,
    EngineEndError,
    GameNumberInvalid,
    ThreadJoinError,
    GameError(GameError),
}

/// How managing the two client slots can fail.
#[derive(Clone, Copy, PartialEq, Eq, Structural, Debug)]
pub enum ClientManagerError {
    NoMoreClients,
    ClientNotExists,
    IoError,
}

/// How the serving side of the network arena can fail.
#[derive(Clone, Copy, PartialEq, Eq, Structural, Debug)]
pub enum NetworkArenaServerError {
    IoError,
    ClientManagerError(ClientManagerError),
    ClientNotReady,
}

/// How the client side of the network arena can fail.
#[derive(Clone, Copy, PartialEq, Eq, Structural, Debug)]
pub enum NetworkArenaClientError {
    IoError,
    ConnectionBroken,
    UnexpectedServerResponse,
}

/// The game error that a player error of the side `turn` becomes: pipe
/// trouble counts as a crash, an unparsable or unplayable answer as an
/// invalid move, and a missed deadline as a timeout.
pub open spec fn game_error_of(e: PlayerError, turn: Turn) -> GameError {
    match (e, turn) {
        (PlayerError::IoError, Turn::Black) => GameError::BlackCrash,
        (PlayerError::IoError, Turn::White) => GameError::WhiteCrash,
        (PlayerError::ParseError, Turn::Black) => GameError::BlackInvalidMove,
        (PlayerError::ParseError, Turn::White) => GameError::WhiteInvalidMove,
        (PlayerError::BoardError, Turn::Black) => GameError::BlackInvalidMove,
        (PlayerError::BoardError, Turn::White) => GameError::WhiteInvalidMove,
        (PlayerError::TimeoutError, Turn::Black) => GameError::BlackTimeout,
        (PlayerError::TimeoutError, Turn::White) => GameError::WhiteTimeout,
    }
}

/// Translate a player error to the game error it means for the side
/// `turn`.
pub fn player_to_game_error(e: PlayerError, turn: Turn) -> (r: GameError)
    ensures
        r == game_error_of(e, turn),
{
    match (e, turn) {
        (PlayerError::IoError, Turn::Black) => GameError::BlackCrash,
        (PlayerError::IoError, Turn::White) => GameError::WhiteCrash,
        (PlayerError::ParseError, Turn::Black) => GameError::BlackInvalidMove,
        (PlayerError::ParseError, Turn::White) => GameError::WhiteInvalidMove,
        (PlayerError::BoardError, Turn::Black) => GameError::BlackInvalidMove,
        (PlayerError::BoardError, Turn::White) => GameError::WhiteInvalidMove,
        (PlayerError::TimeoutError, Turn::Black) => GameError::BlackTimeout,
        (PlayerError::TimeoutError, Turn::White) => GameError::WhiteTimeout,
    }
}

impl From<ClientManagerError> for NetworkArenaServerError {
    /// A slot-management failure surfaces unchanged on the server side.
    fn from(e: ClientManagerError) -> (r: NetworkArenaServerError) {
        NetworkArenaServerError::ClientManagerError(e)
    }
}

impl vstd::std_specs::convert::FromSpecImpl<ClientManagerError> for NetworkArenaServerError {
    open spec fn obeys_from_spec() -> bool {
        true
    }

    open spec fn from_spec(e: ClientManagerError) -> NetworkArenaServerError {
        NetworkArenaServerError::ClientManagerError(e)
    }
}

} // verus!
