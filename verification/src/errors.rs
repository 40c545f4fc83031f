use vstd::prelude::*;

use crate::state::Coord;

verus! {

/// Why an action was rejected. Every failure leaves the store untouched.
#[derive(Clone, Debug, PartialEq, Eq)]
pub enum ContractError {
    /// The host environment rejected a participant identifier.
    Std { msg: String },
    /// The coordinate lies outside the 3x3 board.
    InvalidCoord { coord: Coord },
    /// The inviter addressed the invitation to themselves.
    CannotStartGame {},
    /// No `INVITED` game exists under the derived key.
    GameNotFound { host: String, opponent: String },
    /// No game exists under the derived key in the status the action needs.
    InvalidGame { host: String, opponent: String },
    /// The target cell is already marked.
    CoordinateAlreadyPlayed { coord: Coord },
    /// The caller moved out of turn.
    TurnAlreadyPlayed { second_player: String },
    /// The attached stake does not exactly match the required escrow.
    InvalidReceivedFunds {},
}

/// Mathematical image of a `ContractError`.
pub enum ErrorV {
    Std { msg: Seq<char> },
    InvalidCoord { coord: Coord },
    CannotStartGame,
    GameNotFound { host: Seq<char>, opponent: Seq<char> },
    InvalidGame { host: Seq<char>, opponent: Seq<char> },
    CoordinateAlreadyPlayed { coord: Coord },
    TurnAlreadyPlayed { second_player: Seq<char> },
    InvalidReceivedFunds,
}

impl View for ContractError {
    type V = ErrorV;

    open spec fn view(&self) -> ErrorV {
        match self {
            ContractError::Std { msg } => ErrorV::Std { msg: msg@ },
            ContractError::InvalidCoord { coord } => ErrorV::InvalidCoord { coord: *coord },
            ContractError::CannotStartGame {} => ErrorV::CannotStartGame,
            ContractError::GameNotFound { host, opponent } => ErrorV::GameNotFound {
                host: host@,
                opponent: opponent@,
            },
            ContractError::InvalidGame { host, opponent } => ErrorV::InvalidGame {
                host: host@,
                opponent: opponent@,
            },
            ContractError::CoordinateAlreadyPlayed { coord } => ErrorV::CoordinateAlreadyPlayed {
                coord: *coord,
            },
            ContractError::TurnAlreadyPlayed { second_player } => ErrorV::TurnAlreadyPlayed {
                second_player: second_player@,
            },
            ContractError::InvalidReceivedFunds {} => ErrorV::InvalidReceivedFunds,
        }
    }
}

} // verus!
