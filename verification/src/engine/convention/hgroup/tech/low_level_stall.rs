//! The last-resort stall.
use vstd::prelude::*;
use crate::engine::convention::convention_tech::ConventionTech;
use crate::bits::{group_bits, in_mask, test_bit};
use crate::engine::convention::hgroup::h_group_core::{
    chop, get_chop_index, known_in_mask, still_needed_cards_mask, still_needed_mask, touched_cards_for_clue,
};
use crate::engine::convention::hgroup::tech::five_save::rank_clue_to;
use crate::engine::convention::hgroup::tech::five_stall::{first_five_stall, five_stall_from};
use crate::engine::game_state_snapshot::GameStateSnapshot;
use crate::engine::knowledge::knowledge_update::{hyp_empty, Hypothesis};
use crate::engine::knowledge::lightweight_player_pov::LightweightPlayerPOV;
use crate::game::action::{GameAction, GameActionView};
use crate::game::clue::{Clue, ClueType};
use crate::game::{MAX_CARDS_IN_DECK, MAX_CLUE_TOKEN_COUNT};

verus! {

broadcast use group_bits;

/// Last-resort stall, when no other tech proposes an action. In order, the first that
/// applies: clue rank 5 to the first teammate holding a 5; clue the rank of the first
/// still-needed chop of a teammate; discard slot 1 (bank not full); play slot 1.
pub struct LowLevelStall;

/// The rank of `p`'s chop, when `pov` knows it to be a needed identity and the rank clue
/// touches a card of `p` it knows.
pub open spec fn chop_rank(pov: LightweightPlayerPOV, p: int, needed: u64) -> Option<u8> {
    match chop(pov, p) {
        Some(c) => match pov.card_id(c as int) {
            Some(id) => if in_mask(needed, id as int) && known_in_mask(
                pov,
                pov.ts().hand(p),
                pov.v().clue_mask(ClueType::Rank, (id % 5 + 1) as int),
            ).len() > 0 {
                Some((id % 5 + 1) as u8)
            } else {
                None
            },
            None => None,
        },
        None => None,
    }
}

/// The rank clue on the chop of the first player among `p..n`, other than the player on
/// turn, whose chop `pov` knows to be a needed identity.
pub open spec fn chop_rank_from(pov: LightweightPlayerPOV, p: int, n: int, needed: u64) -> Seq<GameActionView>
    decreases n - p,
{
    if p >= n {
        Seq::empty()
    } else if p != pov.ts().active_player_index && chop_rank(pov, p, needed) is Some {
        seq![rank_clue_to(pov, p, chop_rank(pov, p, needed)->0)]
    } else {
        chop_rank_from(pov, p + 1, n, needed)
    }
}

/// The stall of the player on turn.
pub open spec fn low_level_stall_actions(pov: LightweightPlayerPOV) -> Seq<GameActionView> {
    let n = pov.sd().number_of_players as int;
    let active = pov.ts().active_player_index;
    let hand = pov.ts().hand(active as int);
    let turn = pov.ts().current_turn;
    let clues = if pov.ts().clue_tokens > 0 {
        if five_stall_from(pov, 0, n).len() > 0 {
            five_stall_from(pov, 0, n)
        } else {
            chop_rank_from(pov, 0, n, still_needed_mask(&pov.ts(), &pov.sd()))
        }
    } else {
        Seq::empty()
    };
    if clues.len() > 0 {
        clues
    } else if pov.ts().clue_tokens < MAX_CLUE_TOKEN_COUNT && hand.len() > 0 {
        seq![GameActionView::Discard { player_index: active, card_deck_index: hand[0], turn }]
    } else if hand.len() > 0 {
        seq![GameActionView::Play { player_index: active, card_deck_index: hand[0], turn }]
    } else {
        Seq::empty()
    }
}

impl LowLevelStall {
    /// Rank clue value of identity `card_id` in stacks of `stacks_size` cards: its rank
    /// index, taken as a byte, plus one.
    pub fn rank_clue_value(card_id: usize, stacks_size: usize) -> (r: u8)
        requires
            stacks_size > 0,
            ((card_id % stacks_size) as u8) < 255,
        ensures
            r == ((card_id % stacks_size) as u8) + 1,
            card_id % stacks_size < 255 ==> r == card_id % stacks_size + 1,
    {
        (card_id % stacks_size) as u8 + 1
    }

    pub fn name(&self) -> (r: &'static str)
        ensures
            r == ConventionTech::LowLevelStall.name_spec(),
    {
        "LowLevelStall"
    }

    /// The stall is consulted after every other interpretation.
    pub fn interpretation_priority(&self) -> (r: u8)
        ensures
            r == u8::MAX,
    {
        u8::MAX
    }

    /// Exec form of [`chop_rank_from`] from player `0`.
    fn first_chop_rank_clue(pov: &LightweightPlayerPOV, still_needed: u64) -> (r: Vec<GameAction>)
        requires
            pov.wf(),
        ensures
            r@.map_values(|a: GameAction| a@) == chop_rank_from(*pov, 0, pov.sd().number_of_players as int, still_needed),
    {
        proof {
            pov.lemma_wf();
        }
        let active = pov.active_player_index();
        let num_players = pov.static_data().num_players();
        let mut target: usize = 0;
        while target < num_players
            invariant
                pov.wf(),
                active == pov.ts().active_player_index,
                num_players == pov.sd().number_of_players,
                target <= num_players,
                chop_rank_from(*pov, 0, num_players as int, still_needed) == chop_rank_from(*pov, target as int, num_players as int, still_needed),
            decreases num_players - target,
        {
            if target != active {
                if let Some(chop_idx) = get_chop_index(target, pov) {
                    if let Some(card_id) = pov.card_identity(chop_idx) {
                        if test_bit(still_needed, card_id) {
                            let rank = Self::rank_clue_value(card_id as usize, 5);
                            let clue = Clue { clue_type: ClueType::Rank, clue_value: rank };
                            let touched = touched_cards_for_clue(target, &clue, pov);
                            if touched.len() > 0 {
                                let r = vec![GameAction::Clue {
                                    player_index: target,
                                    touched_card_deck_indexes: touched,
                                    clue,
                                    turn: pov.table_state().current_turn,
                                }];
                                assert(r@.map_values(|a: GameAction| a@) =~= chop_rank_from(*pov, target as int, num_players as int, still_needed));
                                return r;
                            }
                        }
                    }
                }
            }
            target += 1;
        }
        let r: Vec<GameAction> = Vec::new();
        assert(r@.map_values(|a: GameAction| a@) =~= chop_rank_from(*pov, target as int, num_players as int, still_needed));
        r
    }

    /// The first stall action that applies (see the type's documentation).
    pub fn game_actions(&self, pov: &LightweightPlayerPOV) -> (r: Vec<GameAction>)
        requires
            pov.wf(),
        ensures
            r@.map_values(|a: GameAction| a@) == low_level_stall_actions(*pov),
    {
        proof {
            pov.lemma_wf();
        }
        let active = pov.active_player_index();
        let table_state = pov.table_state();
        let static_data = pov.static_data();
        let tokens = table_state.whole_clue_tokens_count();
        if tokens > 0 {
            let fives = first_five_stall(pov);
            if fives.len() > 0 {
                return fives;
            }
            let still_needed = still_needed_cards_mask(table_state, static_data);
            let ranks = Self::first_chop_rank_clue(pov, still_needed);
            if ranks.len() > 0 {
                return ranks;
            }
        }
        let hand = &table_state.hands[active];
        if tokens < MAX_CLUE_TOKEN_COUNT && hand.len() > 0 {
            let r = vec![GameAction::Discard { player_index: active, card_deck_index: hand[0], turn: table_state.current_turn }];
            assert(r@.map_values(|a: GameAction| a@) =~= low_level_stall_actions(*pov));
            return r;
        }
        if hand.len() > 0 {
            let r = vec![GameAction::Play { player_index: active, card_deck_index: hand[0], turn: table_state.current_turn }];
            assert(r@.map_values(|a: GameAction| a@) =~= low_level_stall_actions(*pov));
            return r;
        }
        let r: Vec<GameAction> = Vec::new();
        assert(r@.map_values(|a: GameAction| a@) =~= low_level_stall_actions(*pov));
        r
    }

    /// The stall never explains an observed action.
    pub fn matches_action(&self, _action: &GameAction, _history: &[GameStateSnapshot], _observer_pov: &LightweightPlayerPOV) -> (r: bool)
        ensures
            r == false,
    {
        false
    }

    /// A stall teaches nothing.
    pub fn knowledge_updates(&self, _action: &GameAction, _history: &[GameStateSnapshot], _observer_pov: &LightweightPlayerPOV) -> (r: Hypothesis)
        ensures
            r@ == hyp_empty(),
    {
        Hypothesis::empty()
    }
}

} // verus!
