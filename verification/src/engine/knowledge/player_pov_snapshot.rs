//! One player's POV of a recorded moment, owned.
use vstd::prelude::*;
use crate::engine::game_state_snapshot::GameStateSnapshot;
use crate::engine::knowledge::lightweight_player_pov::LightweightPlayerPOV;
use crate::game::static_game_data::StaticGameData;

verus! {

/// A recorded moment and the player whose POV it is; the static game data is supplied
/// when the POV is rebuilt.
pub struct PlayerPOVSnapshot {
    player_index: usize,
    pub snapshot: GameStateSnapshot,
}

impl PlayerPOVSnapshot {
    pub closed spec fn player(&self) -> usize {
        self.player_index
    }

    /// The recorded moment.
    pub closed spec fn recorded(&self) -> GameStateSnapshot {
        self.snapshot
    }

    #[must_use]
    pub fn new(player_index: usize, snapshot: GameStateSnapshot) -> (r: Self)
        ensures
            r.player() == player_index,
            r.recorded() == snapshot,
    {
        PlayerPOVSnapshot { player_index, snapshot }
    }

    /// The player's POV at that moment, borrowing `static_data`.
    pub fn as_pov<'a>(&'a self, static_data: &'a StaticGameData) -> (r: LightweightPlayerPOV<'a>)
        requires
            self.recorded().wf(static_data),
            self.player() < static_data.number_of_players,
        ensures
            r == self.recorded().pov(self.player(), static_data),
            r.wf(),
    {
        self.snapshot.player_pov(self.player_index, static_data)
    }

    pub fn player_index(&self) -> (r: usize)
        ensures
            r == self.player(),
    {
        self.player_index
    }
}

} // verus!
