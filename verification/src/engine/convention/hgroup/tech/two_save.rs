//! Save a 2 on chop with a rank-2 clue.
use vstd::prelude::*;
use crate::bits::{group_bits, in_mask, bit, test_bit, mask_of, lemma_mask_of_eq};
use crate::engine::convention::hgroup::h_group_core::{chop, focus, get_chop_index, known_in_mask, touched_cards_for_clue};
use crate::engine::convention::hgroup::h_group_tech::SaveClueTech;
use crate::engine::convention::hgroup::tech::direct_play_clue::narrow_focus;
use crate::engine::convention::hgroup::tech::five_save::{rank_clue, rank_clue_to};
use crate::engine::convention::hgroup::tech::{clue_args_wf, snapshot_at, snapshot_ref};
use crate::engine::game_state_snapshot::{history_wf, GameStateSnapshot};
use crate::engine::knowledge::knowledge_update::{hyp_empty, hyp_unconditional, updates_wf, Hypothesis, HypothesisView, KnowledgeUpdate};
use crate::engine::knowledge::lightweight_player_pov::LightweightPlayerPOV;
use crate::game::action::{GameAction, GameActionView};
use crate::game::card::{CardDeckIndex, VariantCardId};
use crate::game::clue::{Clue, ClueType};
use crate::game::{PlayerIndex, MAX_CARDS_IN_DECK};

verus! {

broadcast use group_bits;

/// Clue rank 2 to a teammate whose chop is a 2 that is not playable yet and that no other
/// player holds off their own chop.
pub struct TwoSave;

impl SaveClueTech for TwoSave {}

/// Player `p` holds a card that `pov` knows to be `id`.
pub open spec fn holds_copy(pov: LightweightPlayerPOV, p: int, id: int) -> bool {
    exists|k: int| 0 <= k < pov.ts().hand(p).len() && #[trigger] pov.card_id(pov.ts().hand(p)[k] as int) == Some(id as u8)
}

/// Every player other than `target` holding a copy of `id` holds it on chop.
pub open spec fn two_save_legal(pov: LightweightPlayerPOV, id: int, target: int) -> bool {
    forall|p: int|
        0 <= p < pov.sd().number_of_players && p != target ==> (#[trigger] holds_copy(pov, p, id) ==> (chop(pov, p) matches Some(c)
            && pov.card_id(c as int) == Some(id as u8)))
}

/// `id` is a 2, not playable yet, and may be saved on `target`'s chop.
pub open spec fn two_saveable(pov: LightweightPlayerPOV, id: int, target: int) -> bool {
    &&& id < pov.v().total_ids()
    &&& pov.away(id) matches Some(a) && a > 0
    &&& pov.v().clue_touches(ClueType::Rank, 2, id)
    &&& two_save_legal(pov, id, target)
}

/// The chop of `target`, as `pov` sees it, may be 2-saved.
pub open spec fn two_saveable_for(pov: LightweightPlayerPOV, target: int) -> bool {
    &&& chop(pov, target) matches Some(c)
    &&& pov.card_id(c as int) matches Some(id)
    &&& two_saveable(pov, id as int, target)
}

/// 2 saves to the players `0..n` other than the player on turn.
pub open spec fn two_save_clues(pov: LightweightPlayerPOV, n: int) -> Seq<GameActionView>
    decreases n,
{
    if n <= 0 {
        Seq::empty()
    } else if n - 1 != pov.ts().active_player_index && two_saveable_for(pov, n - 1) {
        two_save_clues(pov, n - 1).push(rank_clue_to(pov, n - 1, 2))
    } else {
        two_save_clues(pov, n - 1)
    }
}

/// A rank-2 clue to a player whose chop the giver saw 2-saveable.
pub open spec fn two_save_matches(receiver: usize, clue: Clue, turn: usize, history: Seq<GameStateSnapshot>, obs: LightweightPlayerPOV) -> bool {
    &&& clue == rank_clue(2)
    &&& snapshot_at(history, turn as int) matches Some(snap)
    &&& two_saveable_for(snap.pov(snap.table_state.active_player_index, &obs.sd()), receiver as int)
}

/// 2s not playable yet, from `pov`.
pub open spec fn unplayable_twos_mask(pov: LightweightPlayerPOV) -> u64 {
    mask_of(pov.v().total_ids(), |id: int| pov.v().clue_touches(ClueType::Rank, 2, id) && (pov.away(id) matches Some(a) && a > 0))
}

/// The receiver narrows the focus to the 2s the giver saw unplayable.
pub open spec fn two_save_updates(receiver: usize, touched: Seq<u8>, turn: usize, history: Seq<GameStateSnapshot>, obs: LightweightPlayerPOV) -> HypothesisView {
    let snap = history[turn as int];
    let gp = snap.pov(snap.table_state.active_player_index, &obs.sd());
    match focus(gp, receiver as int, touched) {
        None => hyp_empty(),
        Some(f) => if unplayable_twos_mask(gp) == 0 {
            hyp_empty()
        } else {
            hyp_unconditional(seq![KnowledgeUpdate::NarrowPossibilities { card_deck_index: f, mask: unplayable_twos_mask(gp) }])
        },
    }
}

impl TwoSave {
    /// Exec form of [`holds_copy`].
    fn holds_copy_of(card_id: VariantCardId, p: PlayerIndex, pov: &LightweightPlayerPOV) -> (r: bool)
        requires
            pov.wf(),
            p < pov.sd().number_of_players,
        ensures
            r == holds_copy(*pov, p as int, card_id as int),
    {
        proof {
            pov.lemma_wf();
        }
        let hand = &pov.table_state().hands[p];
        let mut k: usize = 0;
        while k < hand.len()
            invariant
                pov.wf(),
                pov.ts().wf(&pov.sd()),
                p < pov.sd().number_of_players,
                hand@ == pov.ts().hand(p as int),
                k <= hand@.len(),
                forall|j: int| 0 <= j < k ==> #[trigger] pov.card_id(hand@[j] as int) != Some(card_id),
            decreases hand.len() - k,
        {
            let idx = hand[k];
            assert(idx < MAX_CARDS_IN_DECK);
            if pov.card_identity(idx) == Some(card_id) {
                assert(pov.card_id(pov.ts().hand(p as int)[k as int] as int) == Some(card_id as u8));
                return true;
            }
            k += 1;
        }
        false
    }

    /// Exec form of [`two_save_legal`].
    fn can_be_two_saved(card_id: VariantCardId, target: usize, pov: &LightweightPlayerPOV) -> (r: bool)
        requires
            pov.wf(),
        ensures
            r == two_save_legal(*pov, card_id as int, target as int),
    {
        proof {
            pov.lemma_wf();
        }
        let num_players = pov.static_data().num_players();
        let mut p: usize = 0;
        while p < num_players
            invariant
                pov.wf(),
                num_players == pov.sd().number_of_players,
                p <= num_players,
                forall|q: int| 0 <= q < p && q != target ==> (#[trigger] holds_copy(*pov, q, card_id as int) ==> (chop(*pov, q) matches Some(c)
                    && pov.card_id(c as int) == Some(card_id))),
            decreases num_players - p,
        {
            if p != target && Self::holds_copy_of(card_id, p, pov) {
                let on_chop = match get_chop_index(p, pov) {
                    Some(c) => pov.card_identity(c) == Some(card_id),
                    None => false,
                };
                if !on_chop {
                    assert(!(chop(*pov, p as int) matches Some(c) && pov.card_id(c as int) == Some(card_id)));
                    return false;
                }
            }
            p += 1;
        }
        true
    }

    /// Exec form of [`two_saveable`].
    fn is_two_saveable(card_id: VariantCardId, target: usize, pov: &LightweightPlayerPOV) -> (r: bool)
        requires
            pov.wf(),
        ensures
            r == two_saveable(*pov, card_id as int, target as int),
    {
        proof {
            pov.lemma_wf();
        }
        if card_id >= pov.static_data().variant.total_id_count() {
            return false;
        }
        let above = match pov.away_value(card_id) {
            Some(a) => a > 0,
            None => false,
        };
        above && Self::is_rank_two(card_id, pov) && Self::can_be_two_saved(card_id, target, pov)
    }

    /// A rank-2 clue touches identity `card_id`.
    fn is_rank_two(card_id: VariantCardId, pov: &LightweightPlayerPOV) -> (r: bool)
        requires
            pov.wf(),
            card_id < 64,
        ensures
            r == pov.v().clue_touches(ClueType::Rank, 2, card_id as int),
    {
        proof {
            pov.lemma_wf();
        }
        let rank2_mask = pov.static_data().variant.empathy_for_clue(&Clue { clue_type: ClueType::Rank, clue_value: 2 });
        test_bit(rank2_mask, card_id)
    }

    /// Exec form of [`two_saveable_for`].
    fn is_two_saveable_for_target(target: PlayerIndex, pov: &LightweightPlayerPOV) -> (r: bool)
        requires
            pov.wf(),
            target < pov.sd().number_of_players,
        ensures
            r == two_saveable_for(*pov, target as int),
    {
        match get_chop_index(target, pov) {
            Some(c) => match pov.card_identity(c) {
                Some(id) => Self::is_two_saveable(id, target, pov),
                None => false,
            },
            None => false,
        }
    }

    /// Rank-2 clues to every teammate whose chop may be 2-saved.
    pub fn clue_game_actions(&self, pov: &LightweightPlayerPOV) -> (r: Vec<GameAction>)
        requires
            pov.wf(),
        ensures
            r@.map_values(|a: GameAction| a@) == two_save_clues(*pov, pov.sd().number_of_players as int),
    {
        proof {
            pov.lemma_wf();
        }
        let active = pov.active_player_index();
        let num_players = pov.static_data().num_players();
        let mut out: Vec<GameAction> = Vec::new();
        let mut target: usize = 0;
        assert(out@.map_values(|a: GameAction| a@) =~= two_save_clues(*pov, 0));
        while target < num_players
            invariant
                pov.wf(),
                active == pov.ts().active_player_index,
                num_players == pov.sd().number_of_players,
                target <= num_players,
                out@.map_values(|a: GameAction| a@) == two_save_clues(*pov, target as int),
            decreases num_players - target,
        {
            let ghost before = out@;
            if target != active && Self::is_two_saveable_for_target(target, pov) {
                let clue = Clue { clue_type: ClueType::Rank, clue_value: 2 };
                let touched = touched_cards_for_clue(target, &clue, pov);
                let action = GameAction::Clue {
                    player_index: target,
                    touched_card_deck_indexes: touched,
                    clue,
                    turn: pov.table_state().current_turn,
                };
                out.push(action);
                assert(out@.map_values(|a: GameAction| a@) =~= before.map_values(|a: GameAction| a@).push(rank_clue_to(*pov, target as int, 2)));
            }
            target += 1;
        }
        out
    }

    /// A rank-2 clue to a player whose chop the giver saw 2-saveable.
    pub fn matches_clue(
        &self,
        player_index: PlayerIndex,
        _touched: &[CardDeckIndex],
        clue: &Clue,
        turn: usize,
        history: &[GameStateSnapshot],
        pov: &LightweightPlayerPOV,
    ) -> (r: bool)
        requires
            pov.wf(),
            history_wf(history@, &pov.sd()),
            player_index < pov.sd().number_of_players,
        ensures
            r == two_save_matches(player_index, *clue, turn, history@, *pov),
    {
        let is_rank2 = match clue.clue_type {
            ClueType::Rank => clue.clue_value == 2,
            ClueType::Color => false,
        };
        if !is_rank2 {
            return false;
        }
        let snap = match snapshot_ref(history, turn) {
            Some(s) => s,
            None => return false,
        };
        let giver = snap.table_state.active_player_index;
        let giver_pov = snap.player_pov(giver, pov.static_data());
        Self::is_two_saveable_for_target(player_index, &giver_pov)
    }

    /// Exec form of [`unplayable_twos_mask`].
    fn unplayable_twos(pov: &LightweightPlayerPOV) -> (r: u64)
        requires
            pov.wf(),
        ensures
            r == unplayable_twos_mask(*pov),
    {
        proof {
            pov.lemma_wf();
        }
        let variant = &pov.static_data().variant;
        let total = variant.total_id_count();
        let rank2_mask = variant.empathy_by_clue(ClueType::Rank, 2);
        let mut mask: u64 = 0;
        let mut id: u8 = 0;
        assert(total <= 30);
        while id < total
            invariant
                pov.wf(),
                *variant == pov.v(),
                total == pov.v().total_ids(),
                total <= 30,
                id <= total,
                forall|i: int| #[trigger] in_mask(rank2_mask, i) <==> pov.v().clue_touches(ClueType::Rank, 2, i),
                forall|i: int| 0 <= i < 64 ==> (#[trigger] in_mask(mask, i) <==> (i < id
                    && pov.v().clue_touches(ClueType::Rank, 2, i) && (pov.away(i) matches Some(a) && a > 0))),
            decreases total - id,
        {
            let above = match pov.away_value(id) {
                Some(a) => a > 0,
                None => false,
            };
            if test_bit(rank2_mask, id) && above {
                mask = mask | bit(id);
            }
            id += 1;
        }
        proof {
            lemma_mask_of_eq(mask, pov.v().total_ids(), |i: int| pov.v().clue_touches(ClueType::Rank, 2, i) && (pov.away(i) matches Some(a) && a > 0));
        }
        mask
    }

    /// The receiver narrows the focus to the 2s the giver saw unplayable.
    pub fn clue_knowledge_updates(
        &self,
        player_index: PlayerIndex,
        touched: &[CardDeckIndex],
        _clue: &Clue,
        turn: usize,
        history: &[GameStateSnapshot],
        player_pov: &LightweightPlayerPOV,
    ) -> (r: Hypothesis)
        requires
            player_pov.wf(),
            history_wf(history@, &player_pov.sd()),
            clue_args_wf(player_index, touched@, &player_pov.sd()),
            turn < history@.len(),
        ensures
            r@ == two_save_updates(player_index, touched@, turn, history@, *player_pov),
            updates_wf(r@.immediate),
    {
        let snap = &history[turn];
        let giver = snap.table_state.active_player_index;
        let giver_pov = snap.player_pov(giver, player_pov.static_data());
        narrow_focus(player_index, touched, &giver_pov, Self::unplayable_twos(&giver_pov))
    }
}

} // verus!
