//! The board and every player's knowledge at one moment of a game.
use vstd::prelude::*;
use crate::engine::knowledge::lightweight_player_pov::LightweightPlayerPOV;
use crate::engine::knowledge::team_knowledge::TeamKnowledge;
use crate::game::static_game_data::StaticGameData;
use crate::game::table_state::TableState;

verus! {

/// The observable board state plus all per-player knowledge at one moment; the static
/// game data is supplied when a POV is rebuilt from it.
pub struct GameStateSnapshot {
    pub table_state: TableState,
    pub team_knowledge: TeamKnowledge,
}

impl GameStateSnapshot {
    /// The board fits the game and the knowledge holds one record per seat.
    pub open spec fn wf(&self, sd: &StaticGameData) -> bool {
        &&& self.table_state.wf(sd)
        &&& self.team_knowledge.wf()
        &&& self.team_knowledge.spec_num_players() == sd.number_of_players
    }

    /// The POV of `player_index` at this moment.
    pub open spec fn pov<'a>(&'a self, player_index: usize, sd: &'a StaticGameData) -> LightweightPlayerPOV<'a> {
        LightweightPlayerPOV::pov_of(
            player_index,
            &self.team_knowledge.knowledge(player_index as int),
            &self.team_knowledge,
            &self.table_state,
            sd,
        )
    }

    #[must_use]
    pub fn new(table_state: TableState, team_knowledge: TeamKnowledge) -> (r: Self)
        ensures
            r.table_state == table_state,
            r.team_knowledge == team_knowledge,
    {
        GameStateSnapshot { table_state, team_knowledge }
    }

    /// The two snapshots record the same board and the same knowledge.
    pub open spec fn same_as(&self, o: &Self) -> bool {
        &&& self.table_state@ == o.table_state@
        &&& self.team_knowledge.spec_num_players() == o.team_knowledge.spec_num_players()
        &&& self.team_knowledge.views() == o.team_knowledge.views()
    }

    /// A copy of the snapshot.
    pub fn duplicate(&self) -> (r: Self)
        requires
            self.team_knowledge.wf(),
        ensures
            r.same_as(self),
            r.team_knowledge.wf(),
            forall|sd: StaticGameData| self.wf(&sd) ==> #[trigger] r.wf(&sd),
    {
        let r = GameStateSnapshot { table_state: self.table_state.duplicate(), team_knowledge: self.team_knowledge.duplicate() };
        assert(r.team_knowledge.views() =~= self.team_knowledge.views());
        r
    }

    /// The POV of `player_index` at this moment, borrowing `static_data`.
    pub fn player_pov<'a>(&'a self, player_index: usize, static_data: &'a StaticGameData) -> (r: LightweightPlayerPOV<'a>)
        requires
            self.wf(static_data),
            player_index < static_data.number_of_players,
        ensures
            r == self.pov(player_index, static_data),
            r.wf(),
            r.me() == player_index,
            r.kv() == self.team_knowledge.view_of(player_index as int),
            r.team() == self.team_knowledge,
            r.ts() == self.table_state,
            r.sd() == *static_data,
    {
        proof {
            self.team_knowledge.lemma_wf();
        }
        let k = self.team_knowledge.player(player_index);
        let r = LightweightPlayerPOV::new(player_index, k, &self.team_knowledge, &self.table_state, static_data);
        proof {
            LightweightPlayerPOV::lemma_pov_of(player_index, k, &self.team_knowledge, &self.table_state, static_data);
        }
        r
    }
}

/// Every snapshot of `history` fits the game.
pub open spec fn history_wf(history: Seq<GameStateSnapshot>, sd: &StaticGameData) -> bool {
    forall|t: int| 0 <= t < history.len() ==> (#[trigger] history[t]).wf(sd)
}

} // verus!
