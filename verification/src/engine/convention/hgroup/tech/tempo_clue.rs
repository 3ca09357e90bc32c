//! Re-clue a card already held, to tell its holder it is playable now.
use vstd::prelude::*;
use crate::bits::test_bit;
use crate::engine::convention::hgroup::h_group_core::get_clue_focus;
use crate::engine::convention::hgroup::tech::direct_play_clue::{
    external_gotten, focus_at, focus_playable_check, narrow_focus, playable_candidate, playable_ids_touched_by,
    playable_touched_mask, narrow_focus_at,
};
use crate::engine::convention::hgroup::tech::{
    candidate_clues, clue_args_wf, clue_candidates, lemma_select_clues_member, lemma_select_flagged, prev_turn, select_actions, select_clues,
    snapshot_at, snapshot_ref, triples_view,
};
use crate::engine::game_state_snapshot::{history_wf, GameStateSnapshot};
use crate::engine::knowledge::knowledge_update::{hyp_empty, updates_wf, Hypothesis, HypothesisView};
use crate::engine::knowledge::lightweight_player_pov::LightweightPlayerPOV;
use crate::game::action::{GameAction, GameActionView};
use crate::game::card::CardDeckIndex;
use crate::game::clue::Clue;
use crate::game::{PlayerIndex, MAX_CARDS_IN_DECK};

verus! {

/// Clue a teammate whose focus card is playable now but already gotten: its holder does not
/// know yet that it plays.
pub struct TempoClue;

/// The focus card, as `pov` sees it, is playable now and its identity is gotten.
pub open spec fn tempo_clue_setup(pov: LightweightPlayerPOV, focus_idx: u8) -> bool {
    pov.card_id(focus_idx as int) matches Some(id) && pov.ts().is_playable_id(&pov.v(), id as int) && pov.gotten(id as int)
}

/// Some playable identity of the focus, touched by the clue, is gotten elsewhere.
pub open spec fn tempo_clue_matches(receiver: usize, touched: Seq<u8>, clue: Clue, turn: usize, history: Seq<GameStateSnapshot>, obs: LightweightPlayerPOV) -> bool {
    match snapshot_at(history, prev_turn(turn)) {
        None => false,
        Some(snap) => match focus_at(snap, obs.sd(), receiver, touched) {
            None => false,
            Some(f) => exists|i: int| #[trigger] playable_candidate(obs, f, clue, i) && external_gotten(obs, f, i) == true,
        },
    }
}

/// The focus is one of the playable identities the clue touches, as the giver saw them.
pub open spec fn tempo_clue_updates(receiver: usize, touched: Seq<u8>, clue: Clue, turn: usize, history: Seq<GameStateSnapshot>, obs: LightweightPlayerPOV) -> HypothesisView {
    match snapshot_at(history, prev_turn(turn)) {
        None => hyp_empty(),
        Some(snap) => narrow_focus_at(
            snap,
            obs.sd(),
            receiver,
            touched,
            playable_touched_mask(snap.pov(snap.table_state.active_player_index, &obs.sd()), clue),
        ),
    }
}

/// `pov` knows card `f` to be an identity that is the next card of its stack and that is
/// already gotten.
pub open spec fn focus_playable_and_gotten(pov: LightweightPlayerPOV, f: u8) -> bool {
    pov.card_id(f as int) matches Some(id) && id < pov.v().total_ids() && pov.ts().stack(id as int / 5) == id as int % 5 && pov.gotten(id as int)
}

/// `a` is one of the clues the player on turn can give (see [`candidate_clues`]) whose
/// focus card is known playable now and gotten.
pub open spec fn tempo_on_playable(pov: LightweightPlayerPOV, a: GameActionView) -> bool {
    let cands = candidate_clues(pov, pov.sd().number_of_players as int);
    exists|j: int| 0 <= j < cands.len() && #[trigger] cands[j].1 == a && focus_playable_and_gotten(pov, cands[j].2)
}

/// Every tempo clue proposed is a clue whose focus is known to be playable now and gotten.
pub proof fn lemma_tempo_clues_focus_playable(pov: LightweightPlayerPOV, k: int)
    requires
        0 <= k < select_clues(
            candidate_clues(pov, pov.sd().number_of_players as int),
            |t: usize, f: u8| tempo_clue_setup(pov, f),
        ).len(),
    ensures
        tempo_on_playable(pov, select_clues(candidate_clues(pov, pov.sd().number_of_players as int), |t: usize, f: u8| tempo_clue_setup(pov, f))[k]),
{
    let cands = candidate_clues(pov, pov.sd().number_of_players as int);
    let keep = |t: usize, f: u8| tempo_clue_setup(pov, f);
    lemma_select_clues_member(cands, keep, k);
    let j = choose|j: int| 0 <= j < cands.len() && (#[trigger] cands[j]).1 == select_clues(cands, keep)[k] && keep(cands[j].0, cands[j].2);
    assert(keep(cands[j].0, cands[j].2));
    assert(cands[j].1 == select_clues(cands, keep)[k]);
}

impl TempoClue {
    /// Exec form of [`tempo_clue_setup`].
    fn is_tempo_clue_setup(focus_idx: CardDeckIndex, pov: &LightweightPlayerPOV) -> (r: bool)
        requires
            pov.wf(),
            focus_idx < MAX_CARDS_IN_DECK,
        ensures
            r == tempo_clue_setup(*pov, focus_idx),
            r == focus_playable_and_gotten(*pov, focus_idx),
    {
        proof {
            pov.lemma_wf();
        }
        match pov.card_identity(focus_idx) {
            Some(card_id) => test_bit(pov.table_state().playable_cards(pov.static_data()), card_id) && pov.is_gotten(card_id),
            None => false,
        }
    }

    /// Every clue of the player on turn whose focus is playable now and gotten.
    pub fn clue_game_actions(&self, active_player_pov: &LightweightPlayerPOV) -> (r: Vec<GameAction>)
        requires
            active_player_pov.wf(),
        ensures
            r@.map_values(|a: GameAction| a@) == select_clues(
                candidate_clues(*active_player_pov, active_player_pov.sd().number_of_players as int),
                |t: usize, f: u8| tempo_clue_setup(*active_player_pov, f),
            ),
            forall|k: int| 0 <= k < r@.len() ==> #[trigger] tempo_on_playable(*active_player_pov, r@[k]@),
    {
        let cands = clue_candidates(active_player_pov);
        let mut flags: Vec<bool> = Vec::new();
        let mut k: usize = 0;
        while k < cands.len()
            invariant
                active_player_pov.wf(),
                k <= cands@.len(),
                flags@.len() == k,
                forall|j: int| 0 <= j < cands@.len() ==> (#[trigger] cands@[j]).2 < MAX_CARDS_IN_DECK,
                forall|j: int| 0 <= j < k ==> flags@[j] == tempo_clue_setup(*active_player_pov, #[trigger] cands@[j].2),
            decreases cands.len() - k,
        {
            flags.push(Self::is_tempo_clue_setup(cands[k].2, active_player_pov));
            k += 1;
        }
        let r = select_actions(&cands, &flags);
        proof {
            let keep = |t: usize, f: u8| tempo_clue_setup(*active_player_pov, f);
            assert forall|j: int| 0 <= j < triples_view(cands@).len() implies flags@[j] == keep(#[trigger] triples_view(cands@)[j].0, triples_view(cands@)[j].2) by {
                assert(triples_view(cands@)[j].2 == cands@[j].2);
            }
            lemma_select_flagged(triples_view(cands@), flags@, keep);
            assert forall|k: int| 0 <= k < r@.len() implies #[trigger] tempo_on_playable(*active_player_pov, r@[k]@) by {
                assert(r@.map_values(|a: GameAction| a@)[k] == r@[k]@);
                lemma_tempo_clues_focus_playable(*active_player_pov, k);
            }
        }
        r
    }

    /// Some playable identity of the focus that the observer allows and the clue touches
    /// is already gotten elsewhere.
    pub fn matches_clue(
        &self,
        player_index: PlayerIndex,
        touched: &[CardDeckIndex],
        clue: &Clue,
        turn: usize,
        history: &[GameStateSnapshot],
        observer_pov: &LightweightPlayerPOV,
    ) -> (r: bool)
        requires
            observer_pov.wf(),
            history_wf(history@, &observer_pov.sd()),
            clue_args_wf(player_index, touched@, &observer_pov.sd()),
        ensures
            r == tempo_clue_matches(player_index, touched@, *clue, turn, history@, *observer_pov),
    {
        let t = if turn == 0 { 0 } else { turn - 1 };
        let snap = match snapshot_ref(history, t) {
            Some(s) => s,
            None => return false,
        };
        let giver = snap.table_state.active_player_index;
        let giver_pov = snap.player_pov(giver, observer_pov.static_data());
        match get_clue_focus(player_index, touched, &giver_pov) {
            Some(f) => focus_playable_check(observer_pov, f, clue, true),
            None => false,
        }
    }

    /// The receiver narrows the focus to the playable identities the clue touches.
    pub fn clue_knowledge_updates(
        &self,
        player_index: PlayerIndex,
        touched: &[CardDeckIndex],
        clue: &Clue,
        turn: usize,
        history: &[GameStateSnapshot],
        observer_pov: &LightweightPlayerPOV,
    ) -> (r: Hypothesis)
        requires
            observer_pov.wf(),
            history_wf(history@, &observer_pov.sd()),
            clue_args_wf(player_index, touched@, &observer_pov.sd()),
        ensures
            r@ == tempo_clue_updates(player_index, touched@, *clue, turn, history@, *observer_pov),
            updates_wf(r@.immediate),
    {
        let t = if turn == 0 { 0 } else { turn - 1 };
        let snap = match snapshot_ref(history, t) {
            Some(s) => s,
            None => return Hypothesis::empty(),
        };
        let giver = snap.table_state.active_player_index;
        let giver_pov = snap.player_pov(giver, observer_pov.static_data());
        narrow_focus(player_index, touched, &giver_pov, playable_ids_touched_by(&giver_pov, clue))
    }
}

} // verus!
