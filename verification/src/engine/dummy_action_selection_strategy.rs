//! The simplest strategy: play the first deck card with a full clue bank, else discard it.
use vstd::prelude::*;
use crate::engine::action_selection_strategy::ActionSelectionStrategy;
use crate::engine::convention::hgroup::h_group_convention_set::HGroupConventionSet;
use crate::engine::knowledge::lightweight_player_pov::LightweightPlayerPOV;
use crate::game::action::GameAction;
use crate::game::MAX_CLUE_TOKEN_COUNT;

verus! {

/// Plays deck card 0 when the clue bank is full (a discard would waste a token), else
/// discards it; conventions are ignored.
pub struct DummyActionSelectionStrategy {}

impl DummyActionSelectionStrategy {
    /// The action this strategy picks for the player on turn.
    pub open spec fn choice(pov: LightweightPlayerPOV) -> GameAction {
        let player_index = pov.ts().active_player_index;
        let turn = pov.ts().current_turn;
        if pov.ts().clue_tokens == MAX_CLUE_TOKEN_COUNT {
            GameAction::Play { player_index, card_deck_index: 0, turn }
        } else {
            GameAction::Discard { player_index, card_deck_index: 0, turn }
        }
    }
}

impl ActionSelectionStrategy for DummyActionSelectionStrategy {
    fn select_active_player_action(&self, player_pov: &LightweightPlayerPOV, _convention_set: &HGroupConventionSet) -> (r: GameAction)
        ensures
            r == Self::choice(*player_pov),
    {
        let table_state = player_pov.table_state();
        let player_on_turn_index = table_state.active_player_index;
        let turn = table_state.current_turn;
        if table_state.whole_clue_tokens_count() == MAX_CLUE_TOKEN_COUNT {
            GameAction::Play { player_index: player_on_turn_index, card_deck_index: 0, turn }
        } else {
            GameAction::Discard { player_index: player_on_turn_index, card_deck_index: 0, turn }
        }
    }
}

} // verus!
