//! Discard the chop.
use vstd::prelude::*;
use crate::engine::convention::hgroup::h_group_core::{chop, get_chop_index};
use crate::engine::game_state_snapshot::GameStateSnapshot;
use crate::engine::knowledge::knowledge_update::{hyp_empty, Hypothesis};
use crate::engine::knowledge::lightweight_player_pov::LightweightPlayerPOV;
use crate::game::action::{GameAction, GameActionView};
use crate::game::card::CardDeckIndex;
use crate::game::PlayerIndex;

verus! {

/// Discard the chop, the oldest card no clue touched: the usual fallback when nothing is
/// playable and no clue is needed. Nothing is proposed when every card is touched.
pub struct DiscardChop;

/// The chop discard of the player on turn, if it has a chop.
pub open spec fn chop_discards(pov: LightweightPlayerPOV) -> Seq<GameActionView> {
    let p = pov.ts().active_player_index;
    match chop(pov, p as int) {
        Some(c) => seq![GameActionView::Discard { player_index: p, card_deck_index: c, turn: pov.ts().current_turn }],
        None => Seq::empty(),
    }
}

impl DiscardChop {
    /// The discard of the chop of the player on turn.
    pub fn discard_game_actions(&self, active_player_pov: &LightweightPlayerPOV) -> (r: Vec<GameAction>)
        requires
            active_player_pov.wf(),
        ensures
            r@.map_values(|a: GameAction| a@) == chop_discards(*active_player_pov),
    {
        proof {
            active_player_pov.lemma_wf();
        }
        let player_index = active_player_pov.active_player_index();
        match get_chop_index(player_index, active_player_pov) {
            Some(card_deck_index) => {
                let r = vec![GameAction::Discard { player_index, card_deck_index, turn: active_player_pov.table_state().current_turn }];
                assert(r@.map_values(|a: GameAction| a@) =~= chop_discards(*active_player_pov));
                r
            },
            None => {
                let r: Vec<GameAction> = Vec::new();
                assert(r@.map_values(|a: GameAction| a@) =~= chop_discards(*active_player_pov));
                r
            },
        }
    }

    /// The discarded card is the chop of `player_index`.
    pub fn matches_discard(
        &self,
        player_index: PlayerIndex,
        card_deck_index: CardDeckIndex,
        _turn: usize,
        _history: &[GameStateSnapshot],
        observer_pov: &LightweightPlayerPOV,
    ) -> (r: bool)
        requires
            observer_pov.wf(),
            player_index < observer_pov.sd().number_of_players,
        ensures
            r == (chop(*observer_pov, player_index as int) == Some(card_deck_index)),
    {
        match get_chop_index(player_index, observer_pov) {
            Some(c) => c == card_deck_index,
            None => false,
        }
    }

    /// A chop discard teaches nothing.
    pub fn discard_knowledge_updates(
        &self,
        _player_index: PlayerIndex,
        _card: CardDeckIndex,
        _turn: usize,
        _history: &[GameStateSnapshot],
        _observer_pov: &LightweightPlayerPOV,
    ) -> (r: Hypothesis)
        ensures
            r@ == hyp_empty(),
    {
        Hypothesis::empty()
    }
}

} // verus!
