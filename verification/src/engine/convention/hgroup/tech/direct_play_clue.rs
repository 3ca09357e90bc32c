//! Clue a card that is playable right now.
use vstd::prelude::*;
use crate::bits::{group_bits, in_mask, bit, test_bit, mask_of, lemma_mask_of_eq, lemma_zero_iff};
use crate::engine::convention::hgroup::h_group_core::{focus, get_clue_focus};
use crate::engine::convention::hgroup::tech::{
    candidate_clues, clue_args_wf, clue_candidates, lemma_select_flagged, prev_turn, select_actions, select_clues,
    snapshot_at, snapshot_ref, triples_view,
};
use crate::engine::game_state_snapshot::{history_wf, GameStateSnapshot};
use crate::engine::knowledge::knowledge_update::{hyp_empty, hyp_unconditional, updates_wf, Hypothesis, HypothesisView, KnowledgeUpdate};
use crate::engine::knowledge::lightweight_player_pov::LightweightPlayerPOV;
use crate::game::action::{GameAction, GameActionView};
use crate::game::card::CardDeckIndex;
use crate::game::clue::Clue;
use crate::game::static_game_data::StaticGameData;
use crate::game::{PlayerIndex, MAX_CARDS_IN_DECK};

verus! {

broadcast use group_bits;

/// Clue a teammate whose focus card (H-Group focus: the chop when touched, else the newest
/// newly touched card) is playable right now and not already held elsewhere.
pub struct DirectPlayClue;

/// The focus card, as `pov` sees it, is playable now and its identity is not gotten.
pub open spec fn direct_play_setup(pov: LightweightPlayerPOV, focus_idx: u8) -> bool {
    pov.card_id(focus_idx as int) matches Some(id) && pov.ts().is_playable_id(&pov.v(), id as int) && !pov.gotten(id as int)
}

/// Identity `i` is gotten from `obs` by a card other than the focus itself (when touched).
pub open spec fn external_gotten(obs: LightweightPlayerPOV, focus_idx: u8, i: int) -> bool {
    obs.gotten(i) && !(obs.touched(focus_idx as int) && obs.card_id(focus_idx as int) == Some(i as u8))
}

/// Identity `i` of the focus is allowed by `obs`, touched by the clue and playable now.
pub open spec fn playable_candidate(obs: LightweightPlayerPOV, focus_idx: u8, clue: Clue, i: int) -> bool {
    &&& 0 <= i < 64
    &&& in_mask(obs.kv().effective_mask(focus_idx as int, &obs.v()), i)
    &&& obs.v().clue_touches(clue.clue_type, clue.clue_value as int, i)
    &&& obs.ts().is_playable_id(&obs.v(), i)
}

/// Focus of the clue in `snap`, from the POV of the player then on turn.
pub open spec fn focus_at(snap: GameStateSnapshot, sd: StaticGameData, receiver: usize, touched: Seq<u8>) -> Option<u8> {
    focus(snap.pov(snap.table_state.active_player_index, &sd), receiver as int, touched)
}

/// Some playable identity of the focus, touched by the clue, is not gotten elsewhere.
pub open spec fn direct_play_matches(receiver: usize, touched: Seq<u8>, clue: Clue, turn: usize, history: Seq<GameStateSnapshot>, obs: LightweightPlayerPOV) -> bool {
    match snapshot_at(history, prev_turn(turn)) {
        None => false,
        Some(snap) => match focus_at(snap, obs.sd(), receiver, touched) {
            None => false,
            Some(f) => exists|i: int| #[trigger] playable_candidate(obs, f, clue, i) && !external_gotten(obs, f, i),
        },
    }
}

/// Identities the clue touches that are playable now, from `pov`.
pub open spec fn playable_touched_mask(pov: LightweightPlayerPOV, clue: Clue) -> u64 {
    mask_of(pov.v().total_ids(), |id: int| pov.v().clue_touches(clue.clue_type, clue.clue_value as int, id) && pov.away(id) == Some(0u8))
}

/// Narrow the focus to `mask`, when the clue has a focus and the mask is not empty.
pub open spec fn narrow_focus_at(snap: GameStateSnapshot, sd: StaticGameData, receiver: usize, touched: Seq<u8>, mask: u64) -> HypothesisView {
    match focus_at(snap, sd, receiver, touched) {
        None => hyp_empty(),
        Some(f) => if mask == 0 {
            hyp_empty()
        } else {
            hyp_unconditional(seq![KnowledgeUpdate::NarrowPossibilities { card_deck_index: f, mask }])
        },
    }
}

/// The focus is one of the playable identities the clue touches, as the giver saw them.
pub open spec fn direct_play_updates(receiver: usize, touched: Seq<u8>, clue: Clue, turn: usize, history: Seq<GameStateSnapshot>, obs: LightweightPlayerPOV) -> HypothesisView {
    match snapshot_at(history, prev_turn(turn)) {
        None => hyp_empty(),
        Some(snap) => narrow_focus_at(
            snap,
            obs.sd(),
            receiver,
            touched,
            playable_touched_mask(snap.pov(snap.table_state.active_player_index, &obs.sd()), clue),
        ),
    }
}

/// Exec form of [`playable_touched_mask`].
pub fn playable_ids_touched_by(pov: &LightweightPlayerPOV, clue: &Clue) -> (r: u64)
    requires
        pov.wf(),
    ensures
        r == playable_touched_mask(*pov, *clue),
{
    proof {
        pov.lemma_wf();
    }
    let variant = &pov.static_data().variant;
    let total = variant.total_id_count();
    let clue_mask = variant.empathy_for_clue(clue);
    let mut mask: u64 = 0;
    let mut id: u8 = 0;
    assert(total <= 30);
    while id < total
        invariant
            pov.wf(),
            total <= 30,
            *variant == pov.v(),
            total == pov.v().total_ids(),
            id <= total,
            forall|i: int| #[trigger] in_mask(clue_mask, i) <==> pov.v().clue_touches(clue.clue_type, clue.clue_value as int, i),
            forall|i: int| 0 <= i < 64 ==> (#[trigger] in_mask(mask, i) <==> (i < id
                && pov.v().clue_touches(clue.clue_type, clue.clue_value as int, i) && pov.away(i) == Some(0u8))),
        decreases total - id,
    {
        let keep = match pov.away_value(id) {
            Some(away) => test_bit(clue_mask, id) && away == 0,
            None => false,
        };
        if keep {
            mask = mask | bit(id);
        }
        id += 1;
    }
    proof {
        lemma_mask_of_eq(mask, pov.v().total_ids(), |i: int| pov.v().clue_touches(clue.clue_type, clue.clue_value as int, i) && pov.away(i) == Some(0u8));
    }
    mask
}

/// `(inferred & clue & playable & external-or-not) != 0` over the focus, as in the direct
/// and tempo play clues: `want_gotten` selects identities gotten elsewhere.
pub fn focus_playable_check(obs: &LightweightPlayerPOV, focus_idx: CardDeckIndex, clue: &Clue, want_gotten: bool) -> (r: bool)
    requires
        obs.wf(),
        focus_idx < MAX_CARDS_IN_DECK,
    ensures
        r == exists|i: int| #[trigger] playable_candidate(*obs, focus_idx, *clue, i) && external_gotten(*obs, focus_idx, i) == want_gotten,
{
    proof {
        obs.lemma_wf();
    }
    let static_data = obs.static_data();
    let clue_mask = static_data.variant.empathy_for_clue(clue);
    let playable = obs.table_state().playable_cards(static_data);
    let gotten = obs.gotten_cards().as_bits();
    let focus_own: u64 = match obs.card_identity(focus_idx) {
        Some(id) => if obs.is_touched(focus_idx) {
            bit(id)
        } else {
            0
        },
        None => 0,
    };
    let external = gotten & !focus_own;
    let side = if want_gotten { external } else { !external };
    let m = obs.inferred_identities(focus_idx).as_bits() & clue_mask & playable & side;
    proof {
        lemma_zero_iff(m);
        assert forall|i: int| #[trigger] in_mask(m, i) <==> (playable_candidate(*obs, focus_idx, *clue, i) && external_gotten(*obs, focus_idx, i) == want_gotten) by {
            if 0 <= i < 64 {
                assert(in_mask(focus_own, i) <==> (obs.touched(focus_idx as int) && obs.card_id(focus_idx as int) == Some(i as u8)));
                assert(in_mask(external, i) <==> external_gotten(*obs, focus_idx, i));
            }
        }
        if m != 0 {
            let i = choose|i: int| in_mask(m, i);
            assert(playable_candidate(*obs, focus_idx, *clue, i));
        }
        if exists|i: int| #[trigger] playable_candidate(*obs, focus_idx, *clue, i) && external_gotten(*obs, focus_idx, i) == want_gotten {
            let i = choose|i: int| #[trigger] playable_candidate(*obs, focus_idx, *clue, i) && external_gotten(*obs, focus_idx, i) == want_gotten;
            assert(in_mask(m, i));
        }
    }
    m != 0
}

impl DirectPlayClue {
    /// Exec form of [`direct_play_setup`].
    fn is_direct_play_situation(focus_idx: CardDeckIndex, pov: &LightweightPlayerPOV) -> (r: bool)
        requires
            pov.wf(),
            focus_idx < MAX_CARDS_IN_DECK,
        ensures
            r == direct_play_setup(*pov, focus_idx),
    {
        proof {
            pov.lemma_wf();
        }
        match pov.card_identity(focus_idx) {
            Some(card_id) => test_bit(pov.table_state().playable_cards(pov.static_data()), card_id) && !pov.is_gotten(card_id),
            None => false,
        }
    }

    /// Every clue of the player on turn whose focus is playable now and not gotten.
    pub fn clue_game_actions(&self, active_player_pov: &LightweightPlayerPOV) -> (r: Vec<GameAction>)
        requires
            active_player_pov.wf(),
        ensures
            r@.map_values(|a: GameAction| a@) == select_clues(
                candidate_clues(*active_player_pov, active_player_pov.sd().number_of_players as int),
                |t: usize, f: u8| direct_play_setup(*active_player_pov, f),
            ),
    {
        let cands = clue_candidates(active_player_pov);
        let mut flags: Vec<bool> = Vec::new();
        let mut k: usize = 0;
        while k < cands.len()
            invariant
                active_player_pov.wf(),
                k <= cands@.len(),
                flags@.len() == k,
                forall|j: int| 0 <= j < cands@.len() ==> (#[trigger] cands@[j]).2 < MAX_CARDS_IN_DECK,
                forall|j: int| 0 <= j < k ==> flags@[j] == direct_play_setup(*active_player_pov, #[trigger] cands@[j].2),
            decreases cands.len() - k,
        {
            flags.push(Self::is_direct_play_situation(cands[k].2, active_player_pov));
            k += 1;
        }
        let r = select_actions(&cands, &flags);
        proof {
            let keep = |t: usize, f: u8| direct_play_setup(*active_player_pov, f);
            assert forall|j: int| 0 <= j < triples_view(cands@).len() implies flags@[j] == keep(#[trigger] triples_view(cands@)[j].0, triples_view(cands@)[j].2) by {
                assert(triples_view(cands@)[j].2 == cands@[j].2);
            }
            lemma_select_flagged(triples_view(cands@), flags@, keep);
        }
        r
    }

    /// Some playable identity of the focus (as the giver saw the focus) that the observer
    /// allows and the clue touches is not gotten elsewhere.
    pub fn matches_clue(
        &self,
        player_index: PlayerIndex,
        touched: &[CardDeckIndex],
        clue: &Clue,
        turn: usize,
        history: &[GameStateSnapshot],
        observer_pov: &LightweightPlayerPOV,
    ) -> (r: bool)
        requires
            observer_pov.wf(),
            history_wf(history@, &observer_pov.sd()),
            clue_args_wf(player_index, touched@, &observer_pov.sd()),
        ensures
            r == direct_play_matches(player_index, touched@, *clue, turn, history@, *observer_pov),
    {
        let t = if turn == 0 { 0 } else { turn - 1 };
        let snap = match snapshot_ref(history, t) {
            Some(s) => s,
            None => return false,
        };
        let sd = observer_pov.static_data();
        let giver = snap.table_state.active_player_index;
        let giver_pov = snap.player_pov(giver, sd);
        match get_clue_focus(player_index, touched, &giver_pov) {
            Some(f) => focus_playable_check(observer_pov, f, clue, false),
            None => false,
        }
    }

    /// The receiver narrows the focus to the playable identities the clue touches.
    pub fn clue_knowledge_updates(
        &self,
        player_index: PlayerIndex,
        touched: &[CardDeckIndex],
        clue: &Clue,
        turn: usize,
        history: &[GameStateSnapshot],
        observer_pov: &LightweightPlayerPOV,
    ) -> (r: Hypothesis)
        requires
            observer_pov.wf(),
            history_wf(history@, &observer_pov.sd()),
            clue_args_wf(player_index, touched@, &observer_pov.sd()),
        ensures
            r@ == direct_play_updates(player_index, touched@, *clue, turn, history@, *observer_pov),
            updates_wf(r@.immediate),
    {
        let t = if turn == 0 { 0 } else { turn - 1 };
        let snap = match snapshot_ref(history, t) {
            Some(s) => s,
            None => return Hypothesis::empty(),
        };
        let sd = observer_pov.static_data();
        let giver = snap.table_state.active_player_index;
        let giver_pov = snap.player_pov(giver, sd);
        narrow_focus(player_index, touched, &giver_pov, playable_ids_touched_by(&giver_pov, clue))
    }
}

/// Exec form of [`narrow_focus_at`] on the giver's POV.
pub fn narrow_focus(player_index: PlayerIndex, touched: &[CardDeckIndex], giver_pov: &LightweightPlayerPOV, mask: u64) -> (r: Hypothesis)
    requires
        giver_pov.wf(),
        player_index < giver_pov.sd().number_of_players,
    ensures
        updates_wf(r@.immediate),
        r@ == match focus(*giver_pov, player_index as int, touched@) {
            None => hyp_empty(),
            Some(f) => if mask == 0 {
                hyp_empty()
            } else {
                hyp_unconditional(seq![KnowledgeUpdate::NarrowPossibilities { card_deck_index: f, mask }])
            },
        },
{
    match get_clue_focus(player_index, touched, giver_pov) {
        Some(f) => {
            if mask == 0 {
                Hypothesis::empty()
            } else {
                let v = vec![KnowledgeUpdate::NarrowPossibilities { card_deck_index: f, mask }];
                assert(v@ =~= seq![KnowledgeUpdate::NarrowPossibilities { card_deck_index: f, mask }]);
                Hypothesis::unconditional(v)
            }
        },
        None => Hypothesis::empty(),
    }
}

} // verus!
