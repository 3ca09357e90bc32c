//! Game data fixed for a whole game.
use vstd::prelude::*;
use crate::game::variant::Variant;
use crate::game::MAX_PLAYERS_IN_GAME;

verus! {

/// Variant rules and player count; never changes during a game.
#[derive(Clone, Debug)]
pub struct StaticGameData {
    pub number_of_players: u8,
    pub variant: Variant,
}

impl StaticGameData {
    pub open spec fn wf(&self) -> bool {
        &&& 2 <= self.number_of_players <= MAX_PLAYERS_IN_GAME
        &&& self.variant.wf()
    }

    /// A copy of this game data.
    pub fn duplicate(&self) -> (r: Self)
        ensures
            r.same_as(*self),
    {
        StaticGameData { number_of_players: self.number_of_players, variant: self.variant.duplicate() }
    }

    /// The same player count and variant.
    pub open spec fn same_as(self, o: StaticGameData) -> bool {
        self.number_of_players == o.number_of_players && self.variant.same_as(o.variant)
    }

    pub open spec fn players(&self) -> int {
        self.number_of_players as int
    }

    pub fn num_players(&self) -> (r: usize)
        ensures
            r == self.number_of_players,
    {
        self.number_of_players as usize
    }

    /// Does `player` take a turn before `target` when the turn after `giver`'s starts the count.
    pub fn plays_before(&self, player: usize, target: usize, giver: usize) -> (r: bool)
        requires
            self.wf(),
            player < self.number_of_players,
            target < self.number_of_players,
            giver < self.number_of_players,
        ensures
            r == plays_before_spec(self.number_of_players as int, player as int, target as int, giver as int),
    {
        let n = self.number_of_players as usize;
        let dp = (player + n - giver) % n;
        let dt = (target + n - giver) % n;
        dp < dt
    }
}

/// Turn distance from `giver`: `player` acts before `target`.
pub open spec fn plays_before_spec(n: int, player: int, target: int, giver: int) -> bool {
    (player + n - giver) % n < (target + n - giver) % n
}

} // verus!
