//! Stall with a rank-5 clue.
use vstd::prelude::*;
use crate::engine::convention::convention_tech::ConventionTech;
use crate::bits::test_bit;
use crate::engine::convention::hgroup::h_group_core::{known_in_mask, touched_cards_for_clue};
use crate::engine::convention::hgroup::tech::five_save::{rank_clue, rank_clue_to};
use crate::engine::convention::hgroup::tech::{prev_turn, snapshot_at, snapshot_ref};
use crate::engine::game_state_snapshot::{history_wf, GameStateSnapshot};
use crate::engine::knowledge::knowledge_update::{hyp_empty, Hypothesis};
use crate::engine::knowledge::lightweight_player_pov::LightweightPlayerPOV;
use crate::game::action::{GameAction, GameActionView};
use crate::game::clue::{Clue, ClueType};
use crate::game::{PlayerIndex, MAX_CARDS_IN_DECK};

verus! {

/// Stall: clue rank 5 to the first teammate who holds a 5, in any slot. A fallback for
/// when no other tech proposes an action.
pub struct FiveStall;

/// Player `p` holds a card `pov` knows to be a 5.
pub open spec fn holds_five(pov: LightweightPlayerPOV, p: int) -> bool {
    exists|k: int|
        0 <= k < pov.ts().hand(p).len() && (#[trigger] pov.card_id(pov.ts().hand(p)[k] as int) matches Some(id)
            && pov.v().clue_touches(ClueType::Rank, 5, id as int))
}

/// The rank-5 clue to the first player among `p..n`, other than the player on turn, who
/// holds a 5 that the clue touches.
pub open spec fn five_stall_from(pov: LightweightPlayerPOV, p: int, n: int) -> Seq<GameActionView>
    decreases n - p,
{
    if p >= n {
        Seq::empty()
    } else if p != pov.ts().active_player_index && holds_five(pov, p) && known_in_mask(
        pov,
        pov.ts().hand(p),
        pov.v().clue_mask(ClueType::Rank, 5),
    ).len() > 0 {
        seq![rank_clue_to(pov, p, 5)]
    } else {
        five_stall_from(pov, p + 1, n)
    }
}

/// The 5 stall of the player on turn; none without a clue token.
pub open spec fn five_stall_actions(pov: LightweightPlayerPOV) -> Seq<GameActionView> {
    if pov.ts().clue_tokens == 0 {
        Seq::empty()
    } else {
        five_stall_from(pov, 0, pov.sd().number_of_players as int)
    }
}

/// A rank-5 clue that the giver could have given as a 5 stall.
pub open spec fn five_stall_matches(action: GameActionView, history: Seq<GameStateSnapshot>, obs: LightweightPlayerPOV) -> bool {
    &&& action matches GameActionView::Clue { clue, turn, .. }
    &&& clue == rank_clue(5)
    &&& snapshot_at(history, prev_turn(turn)) matches Some(snap)
    &&& five_stall_actions(snap.pov(snap.table_state.active_player_index, &obs.sd())).len() > 0
}

/// Exec form of [`holds_five`].
pub fn has_five(target: PlayerIndex, pov: &LightweightPlayerPOV) -> (r: bool)
    requires
        pov.wf(),
        target < pov.sd().number_of_players,
    ensures
        r == holds_five(*pov, target as int),
{
    proof {
        pov.lemma_wf();
    }
    let rank5_mask = pov.static_data().variant.empathy_by_clue(ClueType::Rank, 5);
    let hand = &pov.table_state().hands[target];
    let mut k: usize = 0;
    while k < hand.len()
        invariant
            pov.wf(),
            pov.ts().wf(&pov.sd()),
            target < pov.sd().number_of_players,
            hand@ == pov.ts().hand(target as int),
            forall|i: int| #[trigger] crate::bits::in_mask(rank5_mask, i) <==> pov.v().clue_touches(ClueType::Rank, 5, i),
            k <= hand@.len(),
            forall|j: int| 0 <= j < k ==> !(#[trigger] pov.card_id(hand@[j] as int) matches Some(id) && pov.v().clue_touches(ClueType::Rank, 5, id as int)),
        decreases hand.len() - k,
    {
        let idx = hand[k];
        assert(idx < MAX_CARDS_IN_DECK);
        match pov.card_identity(idx) {
            Some(id) => {
                if test_bit(rank5_mask, id) {
                    assert(pov.card_id(pov.ts().hand(target as int)[k as int] as int) == Some(id));
                    return true;
                }
            },
            None => {},
        }
        k += 1;
    }
    false
}

/// Exec form of [`five_stall_from`] from player `0`.
pub fn first_five_stall(pov: &LightweightPlayerPOV) -> (r: Vec<GameAction>)
    requires
        pov.wf(),
    ensures
        r@.map_values(|a: GameAction| a@) == five_stall_from(*pov, 0, pov.sd().number_of_players as int),
{
    proof {
        pov.lemma_wf();
    }
    let active = pov.active_player_index();
    let num_players = pov.static_data().num_players();
    let mut target: usize = 0;
    while target < num_players
        invariant
            pov.wf(),
            active == pov.ts().active_player_index,
            num_players == pov.sd().number_of_players,
            target <= num_players,
            five_stall_from(*pov, 0, num_players as int) == five_stall_from(*pov, target as int, num_players as int),
        decreases num_players - target,
    {
        if target != active && has_five(target, pov) {
            let clue = Clue { clue_type: ClueType::Rank, clue_value: 5 };
            let touched = touched_cards_for_clue(target, &clue, pov);
            if touched.len() > 0 {
                let r = vec![GameAction::Clue {
                    player_index: target,
                    touched_card_deck_indexes: touched,
                    clue,
                    turn: pov.table_state().current_turn,
                }];
                assert(r@.map_values(|a: GameAction| a@) =~= five_stall_from(*pov, target as int, num_players as int));
                return r;
            }
        }
        target += 1;
    }
    let r: Vec<GameAction> = Vec::new();
    assert(r@.map_values(|a: GameAction| a@) =~= five_stall_from(*pov, target as int, num_players as int));
    r
}

impl FiveStall {
    pub fn name(&self) -> (r: &'static str)
        ensures
            r == ConventionTech::FiveStall.name_spec(),
    {
        "FiveStall"
    }

    /// The 5 stall is consulted after every other interpretation.
    pub fn interpretation_priority(&self) -> (r: u8)
        ensures
            r == u8::MAX,
    {
        u8::MAX
    }

    /// The rank-5 clue to the first teammate holding a 5, when a clue token is left.
    pub fn game_actions(&self, pov: &LightweightPlayerPOV) -> (r: Vec<GameAction>)
        requires
            pov.wf(),
        ensures
            r@.map_values(|a: GameAction| a@) == five_stall_actions(*pov),
    {
        if pov.table_state().whole_clue_tokens_count() == 0 {
            let r: Vec<GameAction> = Vec::new();
            assert(r@.map_values(|a: GameAction| a@) =~= five_stall_actions(*pov));
            return r;
        }
        first_five_stall(pov)
    }

    /// A rank-5 clue the giver could have given as a 5 stall.
    pub fn matches_action(&self, action: &GameAction, history: &[GameStateSnapshot], observer_pov: &LightweightPlayerPOV) -> (r: bool)
        requires
            observer_pov.wf(),
            history_wf(history@, &observer_pov.sd()),
        ensures
            r == five_stall_matches(action@, history@, *observer_pov),
    {
        match action {
            GameAction::Clue { clue, turn, .. } => {
                let is_rank5 = match clue.clue_type {
                    ClueType::Rank => clue.clue_value == 5,
                    ClueType::Color => false,
                };
                if !is_rank5 {
                    return false;
                }
                let t = if *turn == 0 { 0 } else { *turn - 1 };
                let snap = match snapshot_ref(history, t) {
                    Some(s) => s,
                    None => return false,
                };
                let actor = snap.table_state.active_player_index;
                let actor_pov = snap.player_pov(actor, observer_pov.static_data());
                FiveStall.game_actions(&actor_pov).len() > 0
            },
            _ => false,
        }
    }

    /// A stall teaches nothing.
    pub fn knowledge_updates(&self, _action: &GameAction, _history: &[GameStateSnapshot], _observer_pov: &LightweightPlayerPOV) -> (r: Hypothesis)
        ensures
            r@ == hyp_empty(),
    {
        Hypothesis::empty()
    }
}

} // verus!
