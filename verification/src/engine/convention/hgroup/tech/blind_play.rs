//! Play an untouched card that carries a play signal.
use vstd::prelude::*;
use crate::bits::{group_bits, in_mask, test_bit};
use crate::engine::game_state_snapshot::GameStateSnapshot;
use crate::engine::knowledge::knowledge_update::{hyp_empty, Hypothesis};
use crate::engine::knowledge::lightweight_player_pov::LightweightPlayerPOV;
use crate::engine::knowledge::player_knowledge::has_play_in;
use crate::game::action::{GameAction, GameActionView};
use crate::game::card::CardDeckIndex;
use crate::game::{PlayerIndex, MAX_CARDS_IN_DECK};

verus! {

broadcast use group_bits;

/// Play a card that carries a play signal and that no clue touched: blind plays follow
/// finesses and other techs that signal an untouched card.
pub struct BlindPlay;

/// Blind plays among deck positions `0..n` of the player on turn.
pub open spec fn blind_plays(pov: LightweightPlayerPOV, n: int) -> Seq<GameActionView>
    decreases n,
{
    if n <= 0 {
        Seq::empty()
    } else {
        let prev = blind_plays(pov, n - 1);
        let p = pov.ts().active_player_index;
        let kv = pov.team().view_of(p as int);
        if in_mask(kv.own_hand, n - 1) && has_play_in(kv.signals[n - 1]) && !pov.ts().touched(n - 1) {
            prev.push(GameActionView::Play { player_index: p, card_deck_index: (n - 1) as u8, turn: pov.ts().current_turn })
        } else {
            prev
        }
    }
}

impl BlindPlay {
    /// Plays of every untouched, play-signalled card of the player on turn.
    pub fn play_game_actions(&self, pov: &LightweightPlayerPOV) -> (r: Vec<GameAction>)
        requires
            pov.wf(),
        ensures
            r@.map_values(|a: GameAction| a@) == blind_plays(*pov, MAX_CARDS_IN_DECK as int),
    {
        proof {
            pov.lemma_wf();
            pov.team().lemma_wf();
        }
        let player_index = pov.active_player_index();
        let knowledge = pov.team_knowledge().player(player_index);
        let turn = pov.table_state().current_turn;
        let mut actions: Vec<GameAction> = Vec::new();
        let mut idx: u8 = 0;
        assert(actions@.map_values(|a: GameAction| a@) =~= blind_plays(*pov, 0));
        while idx < MAX_CARDS_IN_DECK as u8
            invariant
                pov.wf(),
                player_index == pov.ts().active_player_index,
                turn == pov.ts().current_turn,
                knowledge.wf(),
                knowledge@ == pov.team().view_of(player_index as int),
                idx <= MAX_CARDS_IN_DECK,
                actions@.map_values(|a: GameAction| a@) == blind_plays(*pov, idx as int),
            decreases MAX_CARDS_IN_DECK - idx,
        {
            if test_bit(knowledge.own_hand, idx) && knowledge.signals[idx as usize].has_play() && !pov.is_touched(idx) {
                actions.push(GameAction::Play { player_index, card_deck_index: idx, turn });
            }
            assert(actions@.map_values(|a: GameAction| a@) =~= blind_plays(*pov, idx + 1));
            idx += 1;
        }
        actions
    }

    /// The played card carried a play signal of `player_index` and no clue touched it.
    pub fn matches_play(
        &self,
        player_index: PlayerIndex,
        card: CardDeckIndex,
        _turn: usize,
        _history: &[GameStateSnapshot],
        observer_pov: &LightweightPlayerPOV,
    ) -> (r: bool)
        requires
            observer_pov.wf(),
            player_index < observer_pov.sd().number_of_players,
            card < MAX_CARDS_IN_DECK,
        ensures
            r == (has_play_in(observer_pov.team().view_of(player_index as int).signals[card as int]) && !observer_pov.ts().touched(card as int)),
    {
        proof {
            observer_pov.lemma_wf();
            observer_pov.team().lemma_wf();
        }
        let knowledge = observer_pov.team_knowledge().player(player_index);
        knowledge.signals[card as usize].has_play() && !observer_pov.is_touched(card)
    }

    /// A blind play teaches nothing by itself; pending hypotheses resolve on it.
    pub fn play_knowledge_updates(
        &self,
        _player_index: PlayerIndex,
        _card: CardDeckIndex,
        _turn: usize,
        _history: &[GameStateSnapshot],
        _observer_pov: &LightweightPlayerPOV,
    ) -> (r: Hypothesis)
        ensures
            r@ == hyp_empty(),
    {
        Hypothesis::empty()
    }
}

} // verus!
