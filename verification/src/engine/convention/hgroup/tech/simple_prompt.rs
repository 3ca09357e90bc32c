//! Prompt: clue a card one away from playable whose connecting card a teammate holds touched.
use vstd::prelude::*;
use crate::bits::{group_bits, in_mask, bit, single, test_bit, mask_of, lemma_mask_of_eq};
use crate::engine::convention::hgroup::h_group_core::{focus, get_clue_focus};
use crate::engine::convention::hgroup::h_group_tech::PlayClueTech;
use crate::engine::convention::hgroup::tech::{
    candidate_clues, clue_args_wf, clue_candidates, lemma_select_flagged, select_actions, select_clues, snapshot_at,
    snapshot_ref, triples_view,
};
use crate::engine::game_state_snapshot::{history_wf, GameStateSnapshot};
use crate::engine::knowledge::knowledge_update::{hyp_empty, hyp_unconditional, updates_wf, Hypothesis, HypothesisView, KnowledgeUpdate};
use crate::engine::knowledge::lightweight_player_pov::LightweightPlayerPOV;
use crate::game::action::GameAction;
use crate::game::card::{CardDeckIndex, VariantCardId};
use crate::game::clue::Clue;
use crate::game::{PlayerIndex, MAX_CARDS_IN_DECK};

verus! {

broadcast use group_bits;

/// Clue a card one away from playable whose connecting card sits touched, unknown to its
/// holder, in a teammate's hand: the teammate plays their leftmost touched cards in turn
/// until the connecting card, so every touched card up to it must be playable.
pub struct SimplePrompt;

impl PlayClueTech for SimplePrompt {}

/// Card `idx` is, from `pov`, the connecting card `id`, and its holder does not know it.
pub open spec fn connecting(pov: LightweightPlayerPOV, idx: int, id: int) -> bool {
    pov.card_id(idx) == Some(id as u8) && !pov.known_to_holder(idx)
}

/// Walking the touched cards of `s` from the left, every one is playable up to and including
/// the first connecting card `id`, which exists.
pub open spec fn prompt_walk(pov: LightweightPlayerPOV, s: Seq<u8>, id: int) -> bool
    decreases s.len(),
{
    if s.len() == 0 {
        false
    } else if !pov.touched(s[0] as int) {
        prompt_walk(pov, s.drop_first(), id)
    } else {
        pov.playable(s[0] as int) && (connecting(pov, s[0] as int, id) || prompt_walk(pov, s.drop_first(), id))
    }
}

/// `id` can be prompted in `target`'s hand.
pub open spec fn valid_prompt(pov: LightweightPlayerPOV, id: int, target: int) -> bool {
    prompt_walk(pov, pov.ts().hand(target), id)
}

/// `id` can be prompted in the hand of some player other than `excluded`.
pub open spec fn prompt_anywhere(pov: LightweightPlayerPOV, id: int, excluded: int) -> bool {
    exists|p: int| 0 <= p < pov.sd().number_of_players && p != excluded && #[trigger] valid_prompt(pov, id, p)
}

/// The focus card is one away from playable and its connecting card can be prompted.
pub open spec fn prompt_setup(pov: LightweightPlayerPOV, focus_idx: u8) -> bool {
    &&& pov.card_id(focus_idx as int) matches Some(id)
    &&& id < pov.v().total_ids()
    &&& pov.away(id as int) == Some(1u8)
    &&& prompt_anywhere(pov, id - 1, pov.ts().active_player_index as int)
}

/// The giver's focus is a 1-away identity whose connecting card can be prompted.
pub open spec fn prompt_matches(receiver: usize, touched: Seq<u8>, turn: usize, history: Seq<GameStateSnapshot>, obs: LightweightPlayerPOV) -> bool {
    &&& snapshot_at(history, turn as int) matches Some(snap)
    &&& focus(snap.pov(snap.table_state.active_player_index, &obs.sd()), receiver as int, touched) matches Some(f)
    &&& prompt_setup(snap.pov(snap.table_state.active_player_index, &obs.sd()), f)
}

/// The first touched card of `s`.
pub open spec fn first_touched(pov: LightweightPlayerPOV, s: Seq<u8>) -> Option<u8>
    decreases s.len(),
{
    if s.len() == 0 {
        None
    } else if pov.touched(s[0] as int) {
        Some(s[0])
    } else {
        first_touched(pov, s.drop_first())
    }
}

/// 1-away identities the clue touches whose connecting card can be prompted outside the
/// giver's hand.
pub open spec fn promptable_mask(gp: LightweightPlayerPOV, clue: Clue) -> u64 {
    mask_of(gp.v().total_ids(), |id: int| gp.v().clue_touches(clue.clue_type, clue.clue_value as int, id) && gp.away(id) == Some(1u8)
        && prompt_anywhere(gp, id - 1, gp.ts().active_player_index as int))
}

/// The prompted player (an observer other than the receiver) learns its leftmost touched
/// card is the connecting card; the receiver narrows the focus to the promptable 1-away
/// identities.
pub open spec fn prompt_updates(receiver: usize, touched: Seq<u8>, clue: Clue, turn: usize, history: Seq<GameStateSnapshot>, obs: LightweightPlayerPOV) -> HypothesisView {
    match snapshot_at(history, turn as int) {
        None => hyp_empty(),
        Some(snap) => {
            let gp = snap.pov(snap.table_state.active_player_index, &obs.sd());
            let current = obs.ts().active_player_index;
            match focus(gp, receiver as int, touched) {
                None => hyp_empty(),
                Some(f) => if current != receiver {
                    if prompt_setup_id(gp, f) is Some && prompt_walk(gp, gp.ts().hand(current as int), prompt_setup_id(gp, f)->0 - 1) {
                        hyp_unconditional(
                            seq![KnowledgeUpdate::NarrowPossibilities {
                                card_deck_index: first_touched(gp, gp.ts().hand(current as int))->0,
                                mask: single(prompt_setup_id(gp, f)->0 - 1),
                            }],
                        )
                    } else {
                        hyp_empty()
                    }
                } else if promptable_mask(gp, clue) != 0 {
                    hyp_unconditional(seq![KnowledgeUpdate::NarrowPossibilities { card_deck_index: f, mask: promptable_mask(gp, clue) }])
                } else {
                    hyp_empty()
                },
            }
        },
    }
}

/// The identity of the focus, when it is known and one away from playable.
pub open spec fn prompt_setup_id(pov: LightweightPlayerPOV, focus_idx: u8) -> Option<u8> {
    match pov.card_id(focus_idx as int) {
        Some(id) => if id < pov.v().total_ids() && pov.away(id as int) == Some(1u8) {
            Some(id)
        } else {
            None
        },
        None => None,
    }
}

impl SimplePrompt {
    /// Exec form of [`valid_prompt`].
    fn is_valid_prompt_situation(connecting_id: VariantCardId, target_player: PlayerIndex, pov: &LightweightPlayerPOV) -> (r: bool)
        requires
            pov.wf(),
            target_player < pov.sd().number_of_players,
        ensures
            r == valid_prompt(*pov, connecting_id as int, target_player as int),
    {
        proof {
            pov.lemma_wf();
        }
        let hand = &pov.table_state().hands[target_player];
        let ghost s = hand@;
        let mut k: usize = 0;
        assert(s.subrange(0, s.len() as int) == s);
        while k < hand.len()
            invariant
                pov.wf(),
                pov.ts().wf(&pov.sd()),
                target_player < pov.sd().number_of_players,
                s == hand@,
                s == pov.ts().hand(target_player as int),
                k <= s.len(),
                prompt_walk(*pov, s, connecting_id as int) == prompt_walk(*pov, s.subrange(k as int, s.len() as int), connecting_id as int),
            decreases hand.len() - k,
        {
            let idx = hand[k];
            proof {
                let t = s.subrange(k as int, s.len() as int);
                assert(t[0] == idx);
                assert(t.drop_first() == s.subrange(k + 1, s.len() as int));
                assert(idx < MAX_CARDS_IN_DECK);
            }
            if pov.is_touched(idx) {
                if !pov.is_playable(idx) {
                    return false;
                }
                if pov.card_identity(idx) == Some(connecting_id) && !pov.is_identity_known_to_holder(idx) {
                    return true;
                }
            }
            k += 1;
        }
        assert(s.subrange(k as int, s.len() as int) =~= Seq::<u8>::empty());
        false
    }

    /// Exec form of [`prompt_anywhere`].
    fn prompt_anywhere_exec(connecting_id: VariantCardId, excluded: usize, pov: &LightweightPlayerPOV) -> (r: bool)
        requires
            pov.wf(),
        ensures
            r == prompt_anywhere(*pov, connecting_id as int, excluded as int),
    {
        proof {
            pov.lemma_wf();
        }
        let num_players = pov.static_data().num_players();
        let mut p: usize = 0;
        while p < num_players
            invariant
                pov.wf(),
                num_players == pov.sd().number_of_players,
                p <= num_players,
                forall|q: int| 0 <= q < p && q != excluded ==> !#[trigger] valid_prompt(*pov, connecting_id as int, q),
            decreases num_players - p,
        {
            if p != excluded && Self::is_valid_prompt_situation(connecting_id, p, pov) {
                return true;
            }
            p += 1;
        }
        false
    }

    /// Exec form of [`prompt_setup_id`].
    fn setup_id(focus_idx: CardDeckIndex, pov: &LightweightPlayerPOV) -> (r: Option<VariantCardId>)
        requires
            pov.wf(),
            focus_idx < MAX_CARDS_IN_DECK,
        ensures
            r == prompt_setup_id(*pov, focus_idx),
            r matches Some(id) ==> 1 <= id < pov.v().total_ids(),
    {
        proof {
            pov.lemma_wf();
        }
        match pov.card_identity(focus_idx) {
            Some(id) => {
                if id >= pov.static_data().variant.total_id_count() {
                    return None;
                }
                if pov.away_value(id) == Some(1u8) {
                    Some(id)
                } else {
                    None
                }
            },
            None => None,
        }
    }

    /// Exec form of [`prompt_setup`].
    fn is_prompt_setup(focus_idx: CardDeckIndex, pov: &LightweightPlayerPOV) -> (r: bool)
        requires
            pov.wf(),
            focus_idx < MAX_CARDS_IN_DECK,
        ensures
            r == prompt_setup(*pov, focus_idx),
    {
        match Self::setup_id(focus_idx, pov) {
            Some(id) => Self::prompt_anywhere_exec(id - 1, pov.active_player_index(), pov),
            None => false,
        }
    }

    /// Every clue of the player on turn whose focus can be reached through a prompt.
    pub fn clue_game_actions(&self, pov: &LightweightPlayerPOV) -> (r: Vec<GameAction>)
        requires
            pov.wf(),
        ensures
            r@.map_values(|a: GameAction| a@) == select_clues(
                candidate_clues(*pov, pov.sd().number_of_players as int),
                |t: usize, f: u8| prompt_setup(*pov, f),
            ),
    {
        let cands = clue_candidates(pov);
        let mut flags: Vec<bool> = Vec::new();
        let mut k: usize = 0;
        while k < cands.len()
            invariant
                pov.wf(),
                k <= cands@.len(),
                flags@.len() == k,
                forall|j: int| 0 <= j < cands@.len() ==> (#[trigger] cands@[j]).2 < MAX_CARDS_IN_DECK,
                forall|j: int| 0 <= j < k ==> flags@[j] == prompt_setup(*pov, #[trigger] cands@[j].2),
            decreases cands.len() - k,
        {
            flags.push(Self::is_prompt_setup(cands[k].2, pov));
            k += 1;
        }
        let r = select_actions(&cands, &flags);
        proof {
            let keep = |t: usize, f: u8| prompt_setup(*pov, f);
            assert forall|j: int| 0 <= j < triples_view(cands@).len() implies flags@[j] == keep(#[trigger] triples_view(cands@)[j].0, triples_view(cands@)[j].2) by {
                assert(triples_view(cands@)[j].2 == cands@[j].2);
            }
            lemma_select_flagged(triples_view(cands@), flags@, keep);
        }
        r
    }

    /// The giver's focus was one away from playable with a promptable connecting card.
    pub fn matches_clue(
        &self,
        target_player_index: PlayerIndex,
        touched: &[CardDeckIndex],
        _clue: &Clue,
        turn: usize,
        history: &[GameStateSnapshot],
        observer_pov: &LightweightPlayerPOV,
    ) -> (r: bool)
        requires
            observer_pov.wf(),
            history_wf(history@, &observer_pov.sd()),
            clue_args_wf(target_player_index, touched@, &observer_pov.sd()),
        ensures
            r == prompt_matches(target_player_index, touched@, turn, history@, *observer_pov),
    {
        let snap = match snapshot_ref(history, turn) {
            Some(s) => s,
            None => return false,
        };
        let giver = snap.table_state.active_player_index;
        let giver_pov = snap.player_pov(giver, observer_pov.static_data());
        match get_clue_focus(target_player_index, touched, &giver_pov) {
            Some(f) => Self::is_prompt_setup(f, &giver_pov),
            None => false,
        }
    }

    /// Exec form of [`first_touched`].
    fn first_touched_of(pov: &LightweightPlayerPOV, p: PlayerIndex) -> (r: Option<CardDeckIndex>)
        requires
            pov.wf(),
            p < pov.sd().number_of_players,
        ensures
            r == first_touched(*pov, pov.ts().hand(p as int)),
            r matches Some(c) ==> c < MAX_CARDS_IN_DECK,
    {
        proof {
            pov.lemma_wf();
        }
        let hand = &pov.table_state().hands[p];
        let ghost s = hand@;
        let mut k: usize = 0;
        assert(s.subrange(0, s.len() as int) == s);
        while k < hand.len()
            invariant
                pov.wf(),
                pov.ts().wf(&pov.sd()),
                p < pov.sd().number_of_players,
                s == hand@,
                s == pov.ts().hand(p as int),
                k <= s.len(),
                first_touched(*pov, s) == first_touched(*pov, s.subrange(k as int, s.len() as int)),
            decreases hand.len() - k,
        {
            let idx = hand[k];
            proof {
                let t = s.subrange(k as int, s.len() as int);
                assert(t[0] == idx);
                assert(t.drop_first() == s.subrange(k + 1, s.len() as int));
                assert(idx < MAX_CARDS_IN_DECK);
            }
            if pov.is_touched(idx) {
                return Some(idx);
            }
            k += 1;
        }
        assert(s.subrange(k as int, s.len() as int) =~= Seq::<u8>::empty());
        None
    }

    /// Exec form of [`promptable_mask`].
    fn promptable_ids(gp: &LightweightPlayerPOV, clue: &Clue) -> (r: u64)
        requires
            gp.wf(),
        ensures
            r == promptable_mask(*gp, *clue),
    {
        proof {
            gp.lemma_wf();
        }
        let variant = &gp.static_data().variant;
        let total = variant.total_id_count();
        let clue_mask = variant.empathy_for_clue(clue);
        let giver = gp.active_player_index();
        let mut mask: u64 = 0;
        let mut id: u8 = 0;
        assert(total <= 30);
        while id < total
            invariant
                gp.wf(),
                *variant == gp.v(),
                total == gp.v().total_ids(),
                total <= 30,
                giver == gp.ts().active_player_index,
                id <= total,
                forall|i: int| #[trigger] in_mask(clue_mask, i) <==> gp.v().clue_touches(clue.clue_type, clue.clue_value as int, i),
                forall|i: int| 0 <= i < 64 ==> (#[trigger] in_mask(mask, i) <==> (i < id
                    && gp.v().clue_touches(clue.clue_type, clue.clue_value as int, i) && gp.away(i) == Some(1u8)
                    && prompt_anywhere(*gp, i - 1, giver as int))),
            decreases total - id,
        {
            if test_bit(clue_mask, id) && gp.away_value(id) == Some(1u8) {
                assert(id >= 1);
                if Self::prompt_anywhere_exec(id - 1, giver, gp) {
                    mask = mask | bit(id);
                }
            }
            id += 1;
        }
        proof {
            lemma_mask_of_eq(mask, gp.v().total_ids(), |i: int| gp.v().clue_touches(clue.clue_type, clue.clue_value as int, i) && gp.away(i) == Some(1u8)
                && prompt_anywhere(*gp, i - 1, gp.ts().active_player_index as int));
        }
        mask
    }

    /// The prompted player learns its leftmost touched card is the connecting card; the
    /// receiver narrows the focus to the promptable 1-away identities.
    pub fn clue_knowledge_updates(
        &self,
        clue_receiver_index: PlayerIndex,
        touched: &[CardDeckIndex],
        clue: &Clue,
        turn: usize,
        history: &[GameStateSnapshot],
        observer_pov: &LightweightPlayerPOV,
    ) -> (r: Hypothesis)
        requires
            observer_pov.wf(),
            history_wf(history@, &observer_pov.sd()),
            clue_args_wf(clue_receiver_index, touched@, &observer_pov.sd()),
        ensures
            r@ == prompt_updates(clue_receiver_index, touched@, *clue, turn, history@, *observer_pov),
            updates_wf(r@.immediate),
    {
        proof {
            observer_pov.lemma_wf();
        }
        let snap = match snapshot_ref(history, turn) {
            Some(s) => s,
            None => return Hypothesis::empty(),
        };
        let giver = snap.table_state.active_player_index;
        let giver_pov = snap.player_pov(giver, observer_pov.static_data());
        let current = observer_pov.active_player_index();
        let f = match get_clue_focus(clue_receiver_index, touched, &giver_pov) {
            Some(f) => f,
            None => return Hypothesis::empty(),
        };
        if current != clue_receiver_index {
            let focus_id = match Self::setup_id(f, &giver_pov) {
                Some(id) => id,
                None => return Hypothesis::empty(),
            };
            let connecting_id = focus_id - 1;
            if !Self::is_valid_prompt_situation(connecting_id, current, &giver_pov) {
                return Hypothesis::empty();
            }
            match Self::first_touched_of(&giver_pov, current) {
                Some(card) => {
                    let v = vec![KnowledgeUpdate::NarrowPossibilities { card_deck_index: card, mask: bit(connecting_id) }];
                    assert(v@ =~= seq![KnowledgeUpdate::NarrowPossibilities { card_deck_index: card, mask: single(connecting_id as int) }]);
                    Hypothesis::unconditional(v)
                },
                None => {
                    proof {
                        lemma_walk_has_touched(giver_pov, giver_pov.ts().hand(current as int), connecting_id as int);
                    }
                    Hypothesis::empty()
                },
            }
        } else {
            let mask = Self::promptable_ids(&giver_pov, clue);
            if mask != 0 {
                let v = vec![KnowledgeUpdate::NarrowPossibilities { card_deck_index: f, mask }];
                assert(v@ =~= seq![KnowledgeUpdate::NarrowPossibilities { card_deck_index: f, mask }]);
                Hypothesis::unconditional(v)
            } else {
                Hypothesis::empty()
            }
        }
    }
}

/// A successful prompt walk passes a touched card.
pub proof fn lemma_walk_has_touched(pov: LightweightPlayerPOV, s: Seq<u8>, id: int)
    requires
        prompt_walk(pov, s, id),
    ensures
        first_touched(pov, s) is Some,
    decreases s.len(),
{
    if s.len() > 0 && !pov.touched(s[0] as int) {
        lemma_walk_has_touched(pov, s.drop_first(), id);
    }
}

} // verus!
