use vstd::prelude::*;

use crate::state::{Game, GameV};

verus! {

/// One record a query returns: a game together with its participants.
#[derive(Clone, Debug, PartialEq, Eq)]
pub struct GameResponse {
    pub game: Game,
    pub host: String,
    pub opponent: String,
}

pub struct GameResponseV {
    pub game: GameV,
    pub host: Seq<char>,
    pub opponent: Seq<char>,
}

impl View for GameResponse {
    type V = GameResponseV;

    open spec fn view(&self) -> GameResponseV {
        GameResponseV { game: self.game@, host: self.host@, opponent: self.opponent@ }
    }
}

} // verus!
