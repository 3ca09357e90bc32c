//! Save a 5 on chop with a rank-5 clue.
use vstd::prelude::*;
use crate::engine::convention::hgroup::h_group_core::{chop, get_chop_index, is_oldest_untouched, known_in_mask, lemma_last_untouched_is_oldest, touched_cards_for_clue};
use crate::engine::convention::hgroup::h_group_tech::SaveClueTech;
use crate::engine::convention::hgroup::tech::{clue_args_wf, snapshot_at, snapshot_ref};
use crate::engine::game_state_snapshot::{history_wf, GameStateSnapshot};
use crate::engine::knowledge::knowledge_update::{hyp_empty, Hypothesis};
use crate::engine::knowledge::lightweight_player_pov::LightweightPlayerPOV;
use crate::game::action::{GameAction, GameActionView};
use crate::game::card::CardDeckIndex;
use crate::game::clue::{Clue, ClueType};
use crate::game::PlayerIndex;
use crate::bits::test_bit;

verus! {

/// Clue rank 5 to a teammate whose chop is a 5.
pub struct FiveSave;

impl SaveClueTech for FiveSave {}

/// The rank-5 clue.
pub open spec fn rank_clue(rank: u8) -> Clue {
    Clue { clue_type: ClueType::Rank, clue_value: rank }
}

/// The chop of `target`, as `pov` sees it, is a 5.
pub open spec fn five_saveable(pov: LightweightPlayerPOV, target: int) -> bool {
    &&& chop(pov, target) matches Some(c)
    &&& pov.card_id(c as int) matches Some(id)
    &&& pov.v().clue_touches(ClueType::Rank, 5, id as int)
}

/// The rank clue `rank` to `target`, touching the cards of `target` whose identity `pov`
/// knows and that the clue touches.
pub open spec fn rank_clue_to(pov: LightweightPlayerPOV, target: int, rank: u8) -> GameActionView {
    GameActionView::Clue {
        player_index: target as usize,
        touched: known_in_mask(pov, pov.ts().hand(target), pov.v().clue_mask(ClueType::Rank, rank as int)),
        clue: rank_clue(rank),
        turn: pov.ts().current_turn,
    }
}

/// 5 saves to the players `0..n` other than the player on turn.
pub open spec fn five_save_clues(pov: LightweightPlayerPOV, n: int) -> Seq<GameActionView>
    decreases n,
{
    if n <= 0 {
        Seq::empty()
    } else if n - 1 != pov.ts().active_player_index && five_saveable(pov, n - 1) {
        five_save_clues(pov, n - 1).push(rank_clue_to(pov, n - 1, 5))
    } else {
        five_save_clues(pov, n - 1)
    }
}

/// A rank-5 clue to a player whose chop the giver saw as a 5.
pub open spec fn five_save_matches(receiver: usize, clue: Clue, turn: usize, history: Seq<GameStateSnapshot>, obs: LightweightPlayerPOV) -> bool {
    &&& clue == rank_clue(5)
    &&& snapshot_at(history, turn as int) matches Some(snap)
    &&& five_saveable(snap.pov(snap.table_state.active_player_index, &obs.sd()), receiver as int)
}

/// `pov` knows card `c` to be a 5.
pub open spec fn known_five(pov: LightweightPlayerPOV, c: u8) -> bool {
    pov.card_id(c as int) matches Some(id) && id < pov.v().total_ids() && id % 5 == 4
}

/// `pov` knows the chop of `target`, the oldest card of its hand no clue touched, to be a 5.
pub open spec fn chop_known_five(pov: LightweightPlayerPOV, target: int) -> bool {
    exists|c: u8| #[trigger] is_oldest_untouched(pov.ts(), pov.ts().hand(target), c) && known_five(pov, c)
}

/// The rank-5 clue to `target` from the player on turn, touching the cards of `target`'s
/// hand that `pov` knows the clue touches.
pub open spec fn five_clue_to(pov: LightweightPlayerPOV, target: int) -> GameActionView {
    GameActionView::Clue {
        player_index: target as usize,
        touched: known_in_mask(pov, pov.ts().hand(target), pov.v().clue_mask(ClueType::Rank, 5)),
        clue: Clue { clue_type: ClueType::Rank, clue_value: 5 },
        turn: pov.ts().current_turn,
    }
}

/// `a` is the rank-5 clue to a teammate of the player on turn whose chop is known to be a 5.
pub open spec fn five_save_to_chop_five(pov: LightweightPlayerPOV, a: GameActionView) -> bool {
    exists|t: int|
        0 <= t < pov.sd().number_of_players && t != pov.ts().active_player_index && chop_known_five(pov, t) && a == #[trigger] five_clue_to(pov, t)
}

/// A 5 save is owed to `target` exactly when its chop is known to be a 5.
pub proof fn lemma_five_saveable_iff_chop_is_five(pov: LightweightPlayerPOV, target: int)
    ensures
        five_saveable(pov, target) <==> chop_known_five(pov, target),
{
    let hand = pov.ts().hand(target);
    lemma_last_untouched_is_oldest(pov.ts(), hand);
    if let Some(c) = chop(pov, target) {
        assert(is_oldest_untouched(pov.ts(), hand, c));
    }
}

/// The 5 saves to players `0..n` are exactly the rank-5 clues to the teammates whose chop
/// is known to be a 5.
pub proof fn lemma_five_save_clues(pov: LightweightPlayerPOV, n: int)
    ensures
        forall|k: int| 0 <= k < five_save_clues(pov, n).len() ==> exists|t: int|
            0 <= t < n && t != pov.ts().active_player_index && chop_known_five(pov, t)
                && #[trigger] five_save_clues(pov, n)[k] == five_clue_to(pov, t),
        forall|t: int| 0 <= t < n && t != pov.ts().active_player_index && #[trigger] chop_known_five(pov, t)
            ==> five_save_clues(pov, n).contains(five_clue_to(pov, t)),
    decreases n,
{
    if n > 0 {
        lemma_five_save_clues(pov, n - 1);
        lemma_five_saveable_iff_chop_is_five(pov, n - 1);
        let prev = five_save_clues(pov, n - 1);
        let cur = five_save_clues(pov, n);
        if n - 1 != pov.ts().active_player_index && five_saveable(pov, n - 1) {
            assert forall|k: int| 0 <= k < cur.len() implies exists|t: int|
                0 <= t < n && t != pov.ts().active_player_index && chop_known_five(pov, t) && #[trigger] cur[k] == five_clue_to(pov, t) by {
                if k < prev.len() {
                    assert(cur[k] == prev[k]);
                    let t = choose|t: int| 0 <= t < n - 1 && t != pov.ts().active_player_index && chop_known_five(pov, t) && #[trigger] prev[k] == five_clue_to(pov, t);
                } else {
                    assert(cur[k] == five_clue_to(pov, n - 1));
                }
            }
            assert forall|t: int| 0 <= t < n && t != pov.ts().active_player_index && #[trigger] chop_known_five(pov, t)
                implies cur.contains(five_clue_to(pov, t)) by {
                if t < n - 1 {
                    let j = choose|j: int| 0 <= j < prev.len() && prev[j] == five_clue_to(pov, t);
                    assert(cur[j] == prev[j]);
                } else {
                    assert(cur[prev.len() as int] == five_clue_to(pov, t));
                }
            }
        } else {
            assert forall|k: int| 0 <= k < cur.len() implies exists|t: int|
                0 <= t < n && t != pov.ts().active_player_index && chop_known_five(pov, t) && #[trigger] cur[k] == five_clue_to(pov, t) by {
                let t = choose|t: int| 0 <= t < n - 1 && t != pov.ts().active_player_index && chop_known_five(pov, t) && #[trigger] prev[k] == five_clue_to(pov, t);
            }
        }
    }
}

/// Exec form of [`five_saveable`].
pub fn is_five_saveable(target: PlayerIndex, pov: &LightweightPlayerPOV) -> (r: bool)
    requires
        pov.wf(),
        target < pov.sd().number_of_players,
    ensures
        r == five_saveable(*pov, target as int),
        r == chop_known_five(*pov, target as int),
{
    proof {
        pov.lemma_wf();
    }
    proof {
        lemma_five_saveable_iff_chop_is_five(*pov, target as int);
    }
    match get_chop_index(target, pov) {
        Some(c) => match pov.card_identity(c) {
            Some(id) => {
                let rank5_mask = pov.static_data().variant.empathy_by_clue(ClueType::Rank, 5);
                test_bit(rank5_mask, id)
            },
            None => false,
        },
        None => false,
    }
}

impl FiveSave {
    /// Rank-5 clues to every teammate whose chop is a 5.
    pub fn clue_game_actions(&self, pov: &LightweightPlayerPOV) -> (r: Vec<GameAction>)
        requires
            pov.wf(),
        ensures
            r@.map_values(|a: GameAction| a@) == five_save_clues(*pov, pov.sd().number_of_players as int),
            forall|k: int| 0 <= k < r@.len() ==> #[trigger] five_save_to_chop_five(*pov, r@[k]@),
            forall|t: int| 0 <= t < pov.sd().number_of_players && t != pov.ts().active_player_index && #[trigger] chop_known_five(*pov, t)
                ==> exists|k: int| 0 <= k < r@.len() && r@[k]@ == five_clue_to(*pov, t),
    {
        proof {
            pov.lemma_wf();
        }
        let active = pov.active_player_index();
        let num_players = pov.static_data().num_players();
        let mut out: Vec<GameAction> = Vec::new();
        let mut target: usize = 0;
        assert(out@.map_values(|a: GameAction| a@) =~= five_save_clues(*pov, 0));
        while target < num_players
            invariant
                pov.wf(),
                active == pov.ts().active_player_index,
                num_players == pov.sd().number_of_players,
                target <= num_players,
                out@.map_values(|a: GameAction| a@) == five_save_clues(*pov, target as int),
            decreases num_players - target,
        {
            let ghost before = out@;
            if target != active && is_five_saveable(target, pov) {
                let clue = Clue { clue_type: ClueType::Rank, clue_value: 5 };
                let touched = touched_cards_for_clue(target, &clue, pov);
                let action = GameAction::Clue {
                    player_index: target,
                    touched_card_deck_indexes: touched,
                    clue,
                    turn: pov.table_state().current_turn,
                };
                out.push(action);
                assert(out@.map_values(|a: GameAction| a@) =~= before.map_values(|a: GameAction| a@).push(rank_clue_to(*pov, target as int, 5)));
            }
            target += 1;
        }
        proof {
            let n = pov.sd().number_of_players as int;
            let clues = five_save_clues(*pov, n);
            lemma_five_save_clues(*pov, n);
            assert forall|k: int| 0 <= k < out@.len() implies #[trigger] five_save_to_chop_five(*pov, out@[k]@) by {
                assert(out@.map_values(|a: GameAction| a@)[k] == out@[k]@);
                let t = choose|t: int| 0 <= t < n && t != pov.ts().active_player_index && chop_known_five(*pov, t) && #[trigger] clues[k] == five_clue_to(*pov, t);
                assert(0 <= t < pov.sd().number_of_players && t != pov.ts().active_player_index && chop_known_five(*pov, t) && out@[k]@ == five_clue_to(*pov, t));
            }
            assert forall|t: int| 0 <= t < n && t != pov.ts().active_player_index && #[trigger] chop_known_five(*pov, t)
                implies exists|k: int| 0 <= k < out@.len() && out@[k]@ == five_clue_to(*pov, t) by {
                let k = choose|k: int| 0 <= k < clues.len() && clues[k] == five_clue_to(*pov, t);
                assert(out@.map_values(|a: GameAction| a@)[k] == out@[k]@);
            }
        }
        out
    }

    /// A rank-5 clue to a player whose chop the giver saw as a 5.
    pub fn matches_clue(
        &self,
        player_index: PlayerIndex,
        _touched: &[CardDeckIndex],
        clue: &Clue,
        turn: usize,
        history: &[GameStateSnapshot],
        pov: &LightweightPlayerPOV,
    ) -> (r: bool)
        requires
            pov.wf(),
            history_wf(history@, &pov.sd()),
            player_index < pov.sd().number_of_players,
        ensures
            r == five_save_matches(player_index, *clue, turn, history@, *pov),
    {
        let is_rank5 = match clue.clue_type {
            ClueType::Rank => clue.clue_value == 5,
            ClueType::Color => false,
        };
        if !is_rank5 {
            return false;
        }
        let snap = match snapshot_ref(history, turn) {
            Some(s) => s,
            None => return false,
        };
        let giver = snap.table_state.active_player_index;
        let giver_pov = snap.player_pov(giver, pov.static_data());
        is_five_saveable(player_index, &giver_pov)
    }

    /// The rank clue itself tells the receiver everything; no narrowing is added.
    pub fn clue_knowledge_updates(
        &self,
        _player_index: PlayerIndex,
        _touched: &[CardDeckIndex],
        _clue: &Clue,
        _turn: usize,
        _history: &[GameStateSnapshot],
        _pov: &LightweightPlayerPOV,
    ) -> (r: Hypothesis)
        ensures
            r@ == hyp_empty(),
    {
        Hypothesis::empty()
    }
}

} // verus!
