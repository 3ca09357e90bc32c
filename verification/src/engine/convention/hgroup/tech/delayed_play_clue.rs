//! Delayed play clue: clue a card that plays once connecting cards the team already knows
//! are played.
use vstd::prelude::*;
use crate::bits::{group_bits, in_mask, bit, single, test_bit, mask_of, lemma_mask_of_eq};
use crate::engine::convention::hgroup::h_group_core::{focus, get_clue_focus};
use crate::engine::convention::hgroup::h_group_tech::PlayClueTech;
use crate::engine::convention::hgroup::tech::{
    candidate_clues, clue_args_wf, clue_candidates, lemma_select_flagged, prev_turn, round_deadline, round_deadline_of,
    select_actions, select_clues, snapshot_at, snapshot_ref, triples_view,
};
use crate::engine::game_state_snapshot::{history_wf, GameStateSnapshot};
use crate::engine::knowledge::knowledge_update::{
    hyp_empty, hyp_grouped, hyp_unconditional, updates_wf, AltGroupKey, Hypothesis, HypothesisView, KnowledgeUpdate, PendingTrigger,
};
use crate::engine::knowledge::lightweight_player_pov::LightweightPlayerPOV;
use crate::game::action::GameAction;
use crate::game::card::{CardDeckIndex, VariantCardId};
use crate::game::clue::Clue;
use crate::game::{PlayerIndex, MAX_CARDS_IN_DECK};

verus! {

broadcast use group_bits;

/// Clue a card that is not playable yet but will be once connecting cards, already known
/// to the team, are played.
pub struct DelayedPlayClue;

impl PlayClueTech for DelayedPlayClue {}

/// Card `idx` of player `p` is, from `pov`, a touched connecting card for identity `conn`:
/// its holder knows it is `conn` (the player on turn knows it of their own cards when their
/// knowledge pins it down), or (when `p` is not on turn and `pov` does not see it as another
/// identity) its holder knows it playable with `conn` among its identities.
pub open spec fn connector(pov: LightweightPlayerPOV, p: int, idx: int, conn: int) -> bool {
    let poss = pov.team().view_of(p).combined(idx, &pov.ts(), &pov.v());
    &&& pov.touched(idx)
    &&& ((pov.known_to_holder(idx) || p == pov.ts().active_player_index) && pov.card_id(idx) == Some(conn as u8)) || (p != pov.ts().active_player_index
        && !(pov.card_id(idx) matches Some(g) && g != conn as u8) && poss != 0 && poss & !pov.ts().playable_mask(&pov.v()) == 0
        && in_mask(poss, conn))
}

/// Some player holds a connecting card for `conn`.
pub open spec fn connector_held(pov: LightweightPlayerPOV, conn: int) -> bool {
    exists|p: int, k: int|
        0 <= p < pov.sd().number_of_players && 0 <= k < pov.ts().hand(p).len() && #[trigger] connector(
            pov,
            p,
            pov.ts().hand(p)[k] as int,
            conn,
        )
}

/// Every identity between `id` and its stack, `away` of them, has a connecting card.
pub open spec fn connecting_known(pov: LightweightPlayerPOV, id: int, away: int) -> bool {
    forall|off: int| 1 <= off <= away ==> #[trigger] connector_held(pov, id - off)
}

/// Identity `id` is not playable yet, not gotten, and every card before it is connecting.
pub open spec fn delayed_setup(pov: LightweightPlayerPOV, id: int) -> bool {
    &&& 0 <= id < pov.v().total_ids()
    &&& pov.away(id) matches Some(a)
    &&& a > 0
    &&& !pov.gotten(id)
    &&& connecting_known(pov, id, a as int)
}

/// The focus card is known to `pov` and its identity is a delayed play.
pub open spec fn delayed_clue_setup(pov: LightweightPlayerPOV, focus_idx: u8) -> bool {
    pov.card_id(focus_idx as int) matches Some(id) && delayed_setup(pov, id as int)
}

/// Some focus identity the observer allows and the clue touches was a delayed play from
/// the giver's POV.
pub open spec fn delayed_matches(receiver: usize, touched: Seq<u8>, clue: Clue, turn: usize, history: Seq<GameStateSnapshot>, obs: LightweightPlayerPOV) -> bool {
    match snapshot_at(history, prev_turn(turn)) {
        None => false,
        Some(snap) => {
            let gp = snap.pov(snap.table_state.active_player_index, &obs.sd());
            match focus(gp, receiver as int, touched) {
                None => false,
                Some(f) => exists|i: int|
                    #![trigger delayed_setup(gp, i)]
                    in_mask(obs.kv().effective_mask(f as int, &obs.v()), i) && obs.v().clue_touches(
                        clue.clue_type,
                        clue.clue_value as int,
                        i,
                    ) && delayed_setup(gp, i),
            }
        },
    }
}

/// Touched card `idx`'s holder knows it is exactly `conn`.
pub open spec fn strict_connector(gp: LightweightPlayerPOV, idx: int, conn: int) -> bool {
    gp.touched(idx) && gp.known_to_holder(idx) && gp.card_id(idx) == Some(conn as u8)
}

/// Touched card `idx` of `holder` is known playable by its holder with `conn` possible,
/// and its holder does not know it exactly as `conn`.
pub open spec fn ambiguous_connector(gp: LightweightPlayerPOV, holder: int, idx: int, conn: int) -> bool {
    let poss = gp.team().view_of(holder).combined(idx, &gp.ts(), &gp.v());
    &&& gp.touched(idx)
    &&& !(gp.known_to_holder(idx) && gp.card_id(idx) == Some(conn as u8))
    &&& poss != 0
    &&& poss & !gp.ts().playable_mask(&gp.v()) == 0
    &&& in_mask(poss, conn)
}

/// The sub-hypothesis pinning the focus `f` to `focus_id`, confirmed when `holder` plays
/// `idx` as `focus_id - 1`.
pub open spec fn connecting_hypothesis(f: u8, focus_id: int, holder: int, idx: u8, deadline: usize) -> HypothesisView {
    hyp_grouped(
        seq![KnowledgeUpdate::NarrowPossibilities { card_deck_index: f, mask: single(focus_id) }],
        PendingTrigger::BlindPlay {
            player: holder as usize,
            expected_card: idx,
            expected_identity: Some((focus_id - 1) as u8),
            deadline_turn: deadline,
        },
        idx as AltGroupKey,
    )
}

/// Sub-hypotheses for the ambiguous connecting cards among `s`, a part of `holder`'s hand.
pub open spec fn hand_subs(gp: LightweightPlayerPOV, f: u8, focus_id: int, holder: int, s: Seq<u8>, deadline: usize) -> Seq<HypothesisView>
    decreases s.len(),
{
    if s.len() == 0 {
        Seq::empty()
    } else {
        let prev = hand_subs(gp, f, focus_id, holder, s.drop_last(), deadline);
        if ambiguous_connector(gp, holder, s.last() as int, focus_id - 1) {
            prev.push(connecting_hypothesis(f, focus_id, holder, s.last(), deadline))
        } else {
            prev
        }
    }
}

/// Sub-hypotheses for the ambiguous connecting cards of players `0..n`.
pub open spec fn holder_subs(gp: LightweightPlayerPOV, f: u8, focus_id: int, n: int, deadline: usize) -> Seq<HypothesisView>
    decreases n,
{
    if n <= 0 {
        Seq::empty()
    } else {
        holder_subs(gp, f, focus_id, n - 1, deadline) + hand_subs(gp, f, focus_id, n - 1, gp.ts().hand(n - 1), deadline)
    }
}

/// Identity `i` of the focus is allowed by the observer and touched by the clue.
pub open spec fn focus_candidate(obs: LightweightPlayerPOV, f: u8, clue: Clue, i: int) -> bool {
    in_mask(obs.kv().effective_mask(f as int, &obs.v()), i) && obs.v().clue_touches(clue.clue_type, clue.clue_value as int, i)
}

/// Sub-hypotheses of the 1-away focus candidates below `m`.
pub open spec fn focus_subs(gp: LightweightPlayerPOV, obs: LightweightPlayerPOV, f: u8, clue: Clue, m: int, deadline: usize) -> Seq<HypothesisView>
    decreases m,
{
    if m <= 0 {
        Seq::empty()
    } else if focus_candidate(obs, f, clue, m - 1) && gp.away(m - 1) == Some(1u8) {
        focus_subs(gp, obs, f, clue, m - 1, deadline) + holder_subs(gp, f, m - 1, gp.sd().number_of_players as int, deadline)
    } else {
        focus_subs(gp, obs, f, clue, m - 1, deadline)
    }
}

/// Some touched card is known to its holder exactly as `conn`.
pub open spec fn strict_held(gp: LightweightPlayerPOV, conn: int) -> bool {
    exists|p: int, k: int|
        0 <= p < gp.sd().number_of_players && 0 <= k < gp.ts().hand(p).len() && #[trigger] strict_connector(
            gp,
            gp.ts().hand(p)[k] as int,
            conn,
        )
}

/// Focus candidates whose connecting cards need no identity-keyed confirmation: deeper
/// chains with known connecting cards, and 1-away identities whose connecting card is known
/// exactly to its holder.
pub open spec fn union_fallback_mask(gp: LightweightPlayerPOV, obs: LightweightPlayerPOV, f: u8, clue: Clue) -> u64 {
    mask_of(gp.v().total_ids(), |i: int| union_fallback(gp, obs, f, clue, i))
}

/// The first narrowing mask of `us`, or `0`.
pub open spec fn first_narrow_mask(us: Seq<KnowledgeUpdate>) -> u64
    decreases us.len(),
{
    if us.len() == 0 {
        0
    } else {
        match us[0] {
            KnowledgeUpdate::NarrowPossibilities { mask, .. } => mask,
            _ => first_narrow_mask(us.drop_first()),
        }
    }
}

/// Deduplication key of a sub-hypothesis.
pub open spec fn hyp_key(h: HypothesisView) -> (Option<AltGroupKey>, u64, Option<VariantCardId>) {
    (
        h.alt_group,
        first_narrow_mask(h.immediate),
        match h.trigger {
            Some(PendingTrigger::BlindPlay { expected_identity, .. }) => expected_identity,
            None => None,
        },
    )
}

/// `s` without the hypotheses whose key an earlier one has.
pub open spec fn dedup_hyps(s: Seq<HypothesisView>) -> Seq<HypothesisView>
    decreases s.len(),
{
    if s.len() == 0 {
        Seq::empty()
    } else {
        let prev = dedup_hyps(s.drop_last());
        if exists|j: int| 0 <= j < prev.len() && #[trigger] hyp_key(prev[j]) == hyp_key(s.last()) {
            prev
        } else {
            prev.push(s.last())
        }
    }
}

/// Delayed-play hypotheses: one provisional sub-hypothesis per ambiguous connecting card
/// of each 1-away focus candidate (deduplicated), then an unconditional narrowing of the
/// focus to the fallback union, when not empty.
pub open spec fn delayed_multi(receiver: usize, touched: Seq<u8>, clue: Clue, turn: usize, history: Seq<GameStateSnapshot>, obs: LightweightPlayerPOV) -> Seq<HypothesisView> {
    match snapshot_at(history, prev_turn(turn)) {
        None => Seq::empty(),
        Some(snap) => {
            let gp = snap.pov(snap.table_state.active_player_index, &obs.sd());
            let deadline = round_deadline(turn, obs.sd().number_of_players as int);
            match focus(gp, receiver as int, touched) {
                None => Seq::empty(),
                Some(f) => {
                    let subs = dedup_hyps(focus_subs(gp, obs, f, clue, gp.v().total_ids(), deadline));
                    let u = union_fallback_mask(gp, obs, f, clue);
                    if u != 0 {
                        subs.push(hyp_unconditional(seq![KnowledgeUpdate::NarrowPossibilities { card_deck_index: f, mask: u }]))
                    } else {
                        subs
                    }
                },
            }
        },
    }
}

/// Union of the narrowing masks in `hs`.
pub open spec fn narrow_union(hs: Seq<HypothesisView>) -> u64
    decreases hs.len(),
{
    if hs.len() == 0 {
        0
    } else {
        narrow_union(hs.drop_last()) | updates_narrow_union(hs.last().immediate)
    }
}

/// Union of the narrowing masks in `us`.
pub open spec fn updates_narrow_union(us: Seq<KnowledgeUpdate>) -> u64
    decreases us.len(),
{
    if us.len() == 0 {
        0
    } else {
        updates_narrow_union(us.drop_last()) | match us.last() {
            KnowledgeUpdate::NarrowPossibilities { mask, .. } => mask,
            _ => 0,
        }
    }
}

/// The target of the last narrowing in `hs`.
pub open spec fn last_narrow_target(hs: Seq<HypothesisView>) -> Option<u8>
    decreases hs.len(),
{
    if hs.len() == 0 {
        None
    } else {
        match updates_last_narrow_target(hs.last().immediate) {
            Some(c) => Some(c),
            None => last_narrow_target(hs.drop_last()),
        }
    }
}

/// The target of the last narrowing in `us`.
pub open spec fn updates_last_narrow_target(us: Seq<KnowledgeUpdate>) -> Option<u8>
    decreases us.len(),
{
    if us.len() == 0 {
        None
    } else {
        match us.last() {
            KnowledgeUpdate::NarrowPossibilities { card_deck_index, .. } => Some(card_deck_index),
            _ => updates_last_narrow_target(us.drop_last()),
        }
    }
}

/// The single-hypothesis form: the union of every delayed-play narrowing, on the focus.
pub open spec fn delayed_updates(receiver: usize, touched: Seq<u8>, clue: Clue, turn: usize, history: Seq<GameStateSnapshot>, obs: LightweightPlayerPOV) -> HypothesisView {
    let hs = delayed_multi(receiver, touched, clue, turn, history, obs);
    match last_narrow_target(hs) {
        None => hyp_empty(),
        Some(c) => hyp_unconditional(seq![KnowledgeUpdate::NarrowPossibilities { card_deck_index: c, mask: narrow_union(hs) }]),
    }
}


/// Views of a list of hypotheses.
pub open spec fn hyps_views(v: Seq<Hypothesis>) -> Seq<HypothesisView> {
    v.map_values(|h: Hypothesis| h@)
}

impl DelayedPlayClue {
    /// Exec form of [`connector`].
    fn is_connector(pov: &LightweightPlayerPOV, p: usize, idx: CardDeckIndex, conn: VariantCardId) -> (r: bool)
        requires
            pov.wf(),
            p < pov.sd().number_of_players,
            idx < MAX_CARDS_IN_DECK,
            conn < 64,
        ensures
            r == connector(*pov, p as int, idx as int, conn as int),
    {
        proof {
            pov.lemma_wf();
            pov.team().lemma_wf();
        }
        if !pov.is_touched(idx) {
            return false;
        }
        let on_turn = p == pov.active_player_index();
        if (on_turn || pov.is_identity_known_to_holder(idx)) && pov.card_identity(idx) == Some(conn) {
            return true;
        }
        if on_turn {
            return false;
        }
        if let Some(g) = pov.card_identity(idx) {
            if g != conn {
                return false;
            }
        }
        let pk = pov.team_knowledge().player(p);
        let poss = pk.combined_possible_identities(idx, pov.table_state(), pov.static_data()).as_bits();
        let playable = pov.table_state().playable_cards(pov.static_data());
        poss != 0 && (poss & !playable) == 0 && test_bit(poss, conn)
    }

    /// Exec form of [`connector_held`].
    fn is_connector_held(pov: &LightweightPlayerPOV, conn: VariantCardId) -> (r: bool)
        requires
            pov.wf(),
            conn < 64,
        ensures
            r == connector_held(*pov, conn as int),
    {
        proof {
            pov.lemma_wf();
        }
        let n = pov.static_data().num_players();
        let mut p: usize = 0;
        while p < n
            invariant
                pov.wf(),
                pov.ts().wf(&pov.sd()),
                n == pov.sd().number_of_players,
                p <= n,
                conn < 64,
                forall|q: int, k: int| 0 <= q < p && 0 <= k < pov.ts().hand(q).len() ==> !#[trigger] connector(*pov, q, pov.ts().hand(q)[k] as int, conn as int),
            decreases n - p,
        {
            let hand = &pov.table_state().hands[p];
            let mut k: usize = 0;
            while k < hand.len()
                invariant
                    pov.wf(),
                    pov.ts().wf(&pov.sd()),
                    n == pov.sd().number_of_players,
                    p < n,
                    conn < 64,
                    hand@ == pov.ts().hand(p as int),
                    k <= hand@.len(),
                    forall|q: int, kk: int| 0 <= q < p && 0 <= kk < pov.ts().hand(q).len() ==> !#[trigger] connector(*pov, q, pov.ts().hand(q)[kk] as int, conn as int),
                    forall|kk: int| 0 <= kk < k ==> !#[trigger] connector(*pov, p as int, hand@[kk] as int, conn as int),
                decreases hand.len() - k,
            {
                let idx = hand[k];
                assert(idx < MAX_CARDS_IN_DECK);
                if Self::is_connector(pov, p, idx, conn) {
                    assert(connector(*pov, p as int, pov.ts().hand(p as int)[k as int] as int, conn as int));
                    return true;
                }
                k += 1;
            }
            p += 1;
        }
        false
    }

    /// Exec form of [`connecting_known`].
    fn connecting_cards_are_known(card_id: VariantCardId, away_value: u8, pov: &LightweightPlayerPOV) -> (r: bool)
        requires
            pov.wf(),
            away_value <= card_id < 64,
        ensures
            r == connecting_known(*pov, card_id as int, away_value as int),
    {
        let mut off: u8 = 1;
        while off <= away_value
            invariant
                pov.wf(),
                away_value <= card_id < 64,
                1 <= off <= away_value + 1,
                forall|o: int| 1 <= o < off ==> #[trigger] connector_held(*pov, card_id - o),
            decreases away_value + 1 - off,
        {
            if !Self::is_connector_held(pov, card_id - off) {
                return false;
            }
            off += 1;
        }
        true
    }

    /// Exec form of [`delayed_setup`].
    fn is_delayed_play_situation(card_id: VariantCardId, pov: &LightweightPlayerPOV) -> (r: bool)
        requires
            pov.wf(),
        ensures
            r == delayed_setup(*pov, card_id as int),
    {
        proof {
            pov.lemma_wf();
        }
        if card_id >= pov.static_data().variant.total_id_count() {
            return false;
        }
        match pov.away_value(card_id) {
            Some(away_value) => {
                away_value > 0 && !pov.is_gotten(card_id) && Self::connecting_cards_are_known(card_id, away_value, pov)
            },
            None => false,
        }
    }

    /// Exec form of [`delayed_clue_setup`].
    fn is_delayed_clue(pov: &LightweightPlayerPOV, focus_idx: CardDeckIndex) -> (r: bool)
        requires
            pov.wf(),
            focus_idx < MAX_CARDS_IN_DECK,
        ensures
            r == delayed_clue_setup(*pov, focus_idx),
    {
        match pov.card_identity(focus_idx) {
            Some(id) => Self::is_delayed_play_situation(id, pov),
            None => false,
        }
    }

    /// Every clue of the player on turn whose focus is a delayed play.
    pub fn clue_game_actions(&self, pov: &LightweightPlayerPOV) -> (r: Vec<GameAction>)
        requires
            pov.wf(),
        ensures
            r@.map_values(|a: GameAction| a@) == select_clues(
                candidate_clues(*pov, pov.sd().number_of_players as int),
                |t: usize, f: u8| delayed_clue_setup(*pov, f),
            ),
    {
        let cands = clue_candidates(pov);
        let mut flags: Vec<bool> = Vec::new();
        let mut k: usize = 0;
        while k < cands.len()
            invariant
                pov.wf(),
                k <= cands@.len(),
                flags@.len() == k,
                forall|j: int| 0 <= j < cands@.len() ==> (#[trigger] cands@[j]).2 < MAX_CARDS_IN_DECK,
                forall|j: int| 0 <= j < k ==> flags@[j] == delayed_clue_setup(*pov, #[trigger] cands@[j].2),
            decreases cands.len() - k,
        {
            flags.push(Self::is_delayed_clue(pov, cands[k].2));
            k += 1;
        }
        let r = select_actions(&cands, &flags);
        proof {
            let keep = |t: usize, f: u8| delayed_clue_setup(*pov, f);
            assert forall|j: int| 0 <= j < triples_view(cands@).len() implies flags@[j] == keep(#[trigger] triples_view(cands@)[j].0, triples_view(cands@)[j].2) by {
                assert(triples_view(cands@)[j].2 == cands@[j].2);
            }
            lemma_select_flagged(triples_view(cands@), flags@, keep);
        }
        r
    }

    /// Some focus identity the observer allows and the clue touches was a delayed play from
    /// the giver's POV.
    pub fn matches_clue(
        &self,
        player_index: PlayerIndex,
        touched: &[CardDeckIndex],
        clue: &Clue,
        turn: usize,
        history: &[GameStateSnapshot],
        observer_pov: &LightweightPlayerPOV,
    ) -> (r: bool)
        requires
            observer_pov.wf(),
            history_wf(history@, &observer_pov.sd()),
            clue_args_wf(player_index, touched@, &observer_pov.sd()),
        ensures
            r == delayed_matches(player_index, touched@, *clue, turn, history@, *observer_pov),
    {
        proof {
            observer_pov.lemma_wf();
        }
        let t = if turn == 0 { 0 } else { turn - 1 };
        let snap = match snapshot_ref(history, t) {
            Some(s) => s,
            None => return false,
        };
        let giver = snap.table_state.active_player_index;
        let giver_pov = snap.player_pov(giver, observer_pov.static_data());
        let f = match get_clue_focus(player_index, touched, &giver_pov) {
            Some(f) => f,
            None => return false,
        };
        let variant = &observer_pov.static_data().variant;
        let total = variant.total_id_count();
        let clue_mask = variant.empathy_for_clue(clue);
        let candidates = observer_pov.inferred_identities(f).as_bits() & clue_mask;
        let mut id: u8 = 0;
        assert(total <= 30);
        while id < total
            invariant
                observer_pov.wf(),
                giver_pov.wf(),
                giver_pov.sd() == observer_pov.sd(),
                snapshot_at(history@, prev_turn(turn)) == Some(*snap),
                giver == snap.table_state.active_player_index,
                giver_pov == snap.pov(giver, &observer_pov.sd()),
                focus(giver_pov, player_index as int, touched@) == Some(f),
                total == observer_pov.v().total_ids(),
                total <= 30,
                id <= total,
                forall|i: int| #[trigger] in_mask(candidates, i) <==> (in_mask(observer_pov.kv().effective_mask(f as int, &observer_pov.v()), i)
                    && observer_pov.v().clue_touches(clue.clue_type, clue.clue_value as int, i)),
                forall|i: int| 0 <= i < id ==> !(in_mask(observer_pov.kv().effective_mask(f as int, &observer_pov.v()), i)
                    && observer_pov.v().clue_touches(clue.clue_type, clue.clue_value as int, i) && #[trigger] delayed_setup(giver_pov, i)),
            decreases total - id,
        {
            if test_bit(candidates, id) && Self::is_delayed_play_situation(id, &giver_pov) {
                proof {
                    let s2 = snapshot_at(history@, prev_turn(turn))->0;
                    assert(s2 == *snap);
                    assert(delayed_setup(giver_pov, id as int));
                }
                return true;
            }
            id += 1;
        }
        proof {
            assert forall|i: int| !(in_mask(observer_pov.kv().effective_mask(f as int, &observer_pov.v()), i)
                && observer_pov.v().clue_touches(clue.clue_type, clue.clue_value as int, i) && #[trigger] delayed_setup(giver_pov, i)) by {
                if i >= total || i < 0 {
                    assert(!delayed_setup(giver_pov, i));
                }
            }
        }
        false
    }
}


/// Exec form of [`hyp_key`].
fn key_of(h: &Hypothesis) -> (r: (Option<AltGroupKey>, u64, Option<VariantCardId>))
    ensures
        r == hyp_key(h@),
{
    let mut mask: u64 = 0;
    let mut found = false;
    let mut k: usize = 0;
    let ghost us = h.immediate@;
    assert(us.subrange(0, us.len() as int) == us);
    while k < h.immediate.len()
        invariant
            us == h.immediate@,
            k <= us.len(),
            !found ==> first_narrow_mask(us) == first_narrow_mask(us.subrange(k as int, us.len() as int)),
            !found ==> mask == 0,
            found ==> mask == first_narrow_mask(us),
        decreases h.immediate.len() - k,
    {
        proof {
            let t = us.subrange(k as int, us.len() as int);
            assert(t[0] == us[k as int]);
            assert(t.drop_first() == us.subrange(k + 1, us.len() as int));
        }
        if !found {
            match h.immediate[k] {
                KnowledgeUpdate::NarrowPossibilities { mask: m, .. } => {
                    mask = m;
                    found = true;
                },
                _ => {},
            }
        }
        k += 1;
    }
    proof {
        if !found {
            assert(us.subrange(k as int, us.len() as int) =~= Seq::<KnowledgeUpdate>::empty());
        }
    }
    let identity = match h.trigger {
        Some(PendingTrigger::BlindPlay { expected_identity, .. }) => expected_identity,
        None => None,
    };
    (h.alt_group, mask, identity)
}

/// The hypotheses of `v` whose key no earlier one has.
fn dedup_hypotheses(v: Vec<Hypothesis>) -> (r: Vec<Hypothesis>)
    ensures
        hyps_views(r@) == dedup_hyps(hyps_views(v@)),
        (forall|k: int| 0 <= k < v@.len() ==> updates_wf((#[trigger] v@[k])@.immediate)) ==> (forall|k: int| 0 <= k < r@.len() ==> updates_wf((#[trigger] r@[k])@.immediate)),
{
    let mut out: Vec<Hypothesis> = Vec::new();
    let mut keys: Vec<(Option<AltGroupKey>, u64, Option<VariantCardId>)> = Vec::new();
    let mut k: usize = 0;
    assert(hyps_views(out@) =~= dedup_hyps(hyps_views(v@).subrange(0, 0)));
    while k < v.len()
        invariant
            k <= v@.len(),
            hyps_views(out@) == dedup_hyps(hyps_views(v@).subrange(0, k as int)),
            keys@.len() == out@.len(),
            forall|j: int| 0 <= j < keys@.len() ==> keys@[j] == #[trigger] hyp_key(out@[j]@),
            (forall|j: int| 0 <= j < v@.len() ==> updates_wf((#[trigger] v@[j])@.immediate)) ==> (forall|j: int| 0 <= j < out@.len() ==> updates_wf((#[trigger] out@[j])@.immediate)),
        decreases v.len() - k,
    {
        let key = key_of(&v[k]);
        let ghost prev = hyps_views(out@);
        proof {
            let t = hyps_views(v@).subrange(0, k + 1);
            assert(t.drop_last() =~= hyps_views(v@).subrange(0, k as int));
            assert(t.last() == v@[k as int]@);
        }
        let mut found = false;
        let mut j: usize = 0;
        while j < keys.len()
            invariant
                j <= keys@.len(),
                keys@.len() == out@.len(),
                prev == hyps_views(out@),
                forall|i: int| 0 <= i < keys@.len() ==> keys@[i] == #[trigger] hyp_key(out@[i]@),
                found == exists|i: int| 0 <= i < j && #[trigger] hyp_key(prev[i]) == key,
            decreases keys.len() - j,
        {
            let kj = keys[j];
            if kj.0 == key.0 && kj.1 == key.1 && kj.2 == key.2 {
                assert(hyp_key(prev[j as int]) == key);
                found = true;
            }
            j += 1;
        }
        if !found {
            let h = v[k].duplicate();
            out.push(h);
            keys.push(key);
            assert(hyps_views(out@) =~= prev.push(v@[k as int]@));
        }
        k += 1;
    }
    assert(hyps_views(v@).subrange(0, v@.len() as int) =~= hyps_views(v@));
    out
}

/// Sub-hypotheses for the ambiguous connecting cards of `holder`, and whether one of its
/// touched cards is known to it exactly as `focus_id - 1`.
fn hand_subhypotheses(gp: &LightweightPlayerPOV, f: CardDeckIndex, focus_id: u8, holder: usize, deadline: usize) -> (r: (Vec<Hypothesis>, bool))
    requires
        gp.wf(),
        holder < gp.sd().number_of_players,
        1 <= focus_id < 64,
    ensures
        hyps_views(r.0@) == hand_subs(*gp, f, focus_id as int, holder as int, gp.ts().hand(holder as int), deadline),
        f < MAX_CARDS_IN_DECK ==> forall|k: int| 0 <= k < r.0@.len() ==> updates_wf((#[trigger] r.0@[k])@.immediate),
        r.1 == exists|k: int| 0 <= k < gp.ts().hand(holder as int).len() && #[trigger] strict_connector(*gp, gp.ts().hand(holder as int)[k] as int, focus_id - 1),
{
    proof {
        gp.lemma_wf();
        gp.team().lemma_wf();
    }
    let conn = focus_id - 1;
    let table_state = gp.table_state();
    let static_data = gp.static_data();
    let pk = gp.team_knowledge().player(holder);
    let playable = table_state.playable_cards(static_data);
    let hand = &table_state.hands[holder];
    let mut out: Vec<Hypothesis> = Vec::new();
    let mut strict_seen = false;
    let mut k: usize = 0;
    assert(hyps_views(out@) =~= hand_subs(*gp, f, focus_id as int, holder as int, hand@.subrange(0, 0), deadline));
    while k < hand.len()
        invariant
            gp.wf(),
            table_state.wf(static_data),
            *table_state == gp.ts(),
            *static_data == gp.sd(),
            pk.wf(),
            pk@ == gp.team().view_of(holder as int),
            playable == gp.ts().playable_mask(&gp.v()),
            holder < gp.sd().number_of_players,
            hand@ == gp.ts().hand(holder as int),
            conn == focus_id - 1,
            1 <= focus_id < 64,
            k <= hand@.len(),
            hyps_views(out@) == hand_subs(*gp, f, focus_id as int, holder as int, hand@.subrange(0, k as int), deadline),
            f < MAX_CARDS_IN_DECK ==> forall|j: int| 0 <= j < out@.len() ==> updates_wf((#[trigger] out@[j])@.immediate),
            strict_seen == exists|j: int| 0 <= j < k && #[trigger] strict_connector(*gp, hand@[j] as int, conn as int),
        decreases hand.len() - k,
    {
        let idx = hand[k];
        let ghost before = hyps_views(out@);
        proof {
            let t = hand@.subrange(0, k + 1);
            assert(t.drop_last() == hand@.subrange(0, k as int));
            assert(t.last() == idx);
            assert(idx < MAX_CARDS_IN_DECK);
        }
        if gp.is_touched(idx) {
            let strict = gp.is_identity_known_to_holder(idx) && gp.card_identity(idx) == Some(conn);
            let poss = pk.combined_possible_identities(idx, table_state, static_data).as_bits();
            let ambiguous = poss != 0 && (poss & !playable) == 0 && test_bit(poss, conn);
            if strict {
                assert(strict_connector(*gp, hand@[k as int] as int, conn as int));
                strict_seen = true;
            } else if ambiguous {
                let v = vec![KnowledgeUpdate::NarrowPossibilities { card_deck_index: f, mask: bit(focus_id) }];
                assert(v@ =~= seq![KnowledgeUpdate::NarrowPossibilities { card_deck_index: f, mask: single(focus_id as int) }]);
                let trigger = PendingTrigger::BlindPlay {
                    player: holder,
                    expected_card: idx,
                    expected_identity: Some(conn),
                    deadline_turn: deadline,
                };
                let h = Hypothesis::provisional_grouped(v, trigger, idx as AltGroupKey);
                assert(h@ == connecting_hypothesis(f, focus_id as int, holder as int, idx, deadline));
                out.push(h);
                assert(hyps_views(out@) =~= before.push(connecting_hypothesis(f, focus_id as int, holder as int, idx, deadline)));
            }
        }
        proof {
            assert(hyps_views(out@) == hand_subs(*gp, f, focus_id as int, holder as int, hand@.subrange(0, k + 1), deadline));
            assert(strict_seen == exists|j: int| 0 <= j < k + 1 && #[trigger] strict_connector(*gp, hand@[j] as int, conn as int)) by {
                if exists|j: int| 0 <= j < k + 1 && #[trigger] strict_connector(*gp, hand@[j] as int, conn as int) {
                    let j = choose|j: int| 0 <= j < k + 1 && #[trigger] strict_connector(*gp, hand@[j] as int, conn as int);
                    if j < k {
                        assert(strict_seen);
                    }
                }
            }
        }
        k += 1;
    }
    assert(hand@.subrange(0, hand@.len() as int) == hand@);
    (out, strict_seen)
}


/// Union-fallback predicate of [`union_fallback_mask`].
pub open spec fn union_fallback(gp: LightweightPlayerPOV, obs: LightweightPlayerPOV, f: u8, clue: Clue, i: int) -> bool {
    focus_candidate(obs, f, clue, i) && (gp.away(i) matches Some(a) && a > 0 && (if a > 1 {
        connecting_known(gp, i, a as int)
    } else {
        strict_held(gp, i - 1)
    }))
}

/// Sub-hypotheses of every holder for a 1-away `focus_id`, and whether some holder knows
/// its connecting card exactly.
fn holder_subhypotheses(gp: &LightweightPlayerPOV, f: CardDeckIndex, focus_id: u8, deadline: usize) -> (r: (Vec<Hypothesis>, bool))
    requires
        gp.wf(),
        1 <= focus_id < 64,
    ensures
        hyps_views(r.0@) == holder_subs(*gp, f, focus_id as int, gp.sd().number_of_players as int, deadline),
        f < MAX_CARDS_IN_DECK ==> forall|k: int| 0 <= k < r.0@.len() ==> updates_wf((#[trigger] r.0@[k])@.immediate),
        r.1 == strict_held(*gp, focus_id - 1),
{
    proof {
        gp.lemma_wf();
    }
    let n = gp.static_data().num_players();
    let mut out: Vec<Hypothesis> = Vec::new();
    let mut strict_any = false;
    let mut holder: usize = 0;
    assert(hyps_views(out@) =~= holder_subs(*gp, f, focus_id as int, 0, deadline));
    while holder < n
        invariant
            gp.wf(),
            n == gp.sd().number_of_players,
            1 <= focus_id < 64,
            holder <= n,
            hyps_views(out@) == holder_subs(*gp, f, focus_id as int, holder as int, deadline),
            f < MAX_CARDS_IN_DECK ==> forall|j: int| 0 <= j < out@.len() ==> updates_wf((#[trigger] out@[j])@.immediate),
            strict_any == exists|q: int, k: int|
                0 <= q < holder && 0 <= k < gp.ts().hand(q).len() && #[trigger] strict_connector(*gp, gp.ts().hand(q)[k] as int, focus_id - 1),
        decreases n - holder,
    {
        let (mut subs, strict) = hand_subhypotheses(gp, f, focus_id, holder, deadline);
        let ghost before = out@;
        let ghost more = subs@;
        out.append(&mut subs);
        assert(hyps_views(out@) =~= hyps_views(before) + hyps_views(more));
        proof {
            if f < MAX_CARDS_IN_DECK {
                assert forall|j: int| 0 <= j < out@.len() implies updates_wf((#[trigger] out@[j])@.immediate) by {
                    if j < before.len() {
                        assert(out@[j] == before[j]);
                    } else {
                        assert(out@[j] == more[j - before.len()]);
                    }
                }
            }
            assert(strict_any || strict <==> exists|q: int, k: int|
                0 <= q < holder + 1 && 0 <= k < gp.ts().hand(q).len() && #[trigger] strict_connector(*gp, gp.ts().hand(q)[k] as int, focus_id - 1)) by {
                if strict {
                    let k = choose|k: int| 0 <= k < gp.ts().hand(holder as int).len() && #[trigger] strict_connector(*gp, gp.ts().hand(holder as int)[k] as int, focus_id - 1);
                    assert(strict_connector(*gp, gp.ts().hand(holder as int)[k] as int, focus_id - 1));
                }
                if exists|q: int, k: int|
                    0 <= q < holder + 1 && 0 <= k < gp.ts().hand(q).len() && #[trigger] strict_connector(*gp, gp.ts().hand(q)[k] as int, focus_id - 1) {
                    let (q, k) = choose|q: int, k: int|
                        0 <= q < holder + 1 && 0 <= k < gp.ts().hand(q).len() && #[trigger] strict_connector(*gp, gp.ts().hand(q)[k] as int, focus_id - 1);
                    if q == holder {
                        assert(strict);
                    } else {
                        assert(strict_any);
                    }
                }
            }
        }
        strict_any = strict_any || strict;
        holder += 1;
    }
    (out, strict_any)
}

impl DelayedPlayClue {
    /// One provisional sub-hypothesis per ambiguous connecting card of each 1-away focus
    /// candidate (deduplicated), then the fallback union narrowing (see [`delayed_multi`]).
    pub fn clue_knowledge_updates_multi(
        &self,
        player_index: PlayerIndex,
        touched: &[CardDeckIndex],
        clue: &Clue,
        turn: usize,
        history: &[GameStateSnapshot],
        observer_pov: &LightweightPlayerPOV,
    ) -> (r: Vec<Hypothesis>)
        requires
            observer_pov.wf(),
            history_wf(history@, &observer_pov.sd()),
            clue_args_wf(player_index, touched@, &observer_pov.sd()),
        ensures
            hyps_views(r@) == delayed_multi(player_index, touched@, *clue, turn, history@, *observer_pov),
            forall|k: int| 0 <= k < r@.len() ==> updates_wf((#[trigger] r@[k])@.immediate),
    {
        proof {
            observer_pov.lemma_wf();
        }
        let t = if turn == 0 { 0 } else { turn - 1 };
        let snap = match snapshot_ref(history, t) {
            Some(s) => s,
            None => {
                let r: Vec<Hypothesis> = Vec::new();
                assert(hyps_views(r@) =~= Seq::<HypothesisView>::empty());
                return r;
            },
        };
        let giver = snap.table_state.active_player_index;
        let giver_pov = snap.player_pov(giver, observer_pov.static_data());
        let f = match get_clue_focus(player_index, touched, &giver_pov) {
            Some(f) => f,
            None => {
                let r: Vec<Hypothesis> = Vec::new();
                assert(hyps_views(r@) =~= Seq::<HypothesisView>::empty());
                return r;
            },
        };
        let n = observer_pov.static_data().num_players();
        let deadline = round_deadline_of(turn, n);
        let variant = &observer_pov.static_data().variant;
        let total = variant.total_id_count();
        let clue_mask = variant.empathy_for_clue(clue);
        let candidates = observer_pov.inferred_identities(f).as_bits() & clue_mask;
        let ghost gp = giver_pov;
        let mut out: Vec<Hypothesis> = Vec::new();
        let mut union_mask: u64 = 0;
        let mut focus_id: u8 = 0;
        assert(total <= 30);
        assert(hyps_views(out@) =~= focus_subs(gp, *observer_pov, f, *clue, 0, deadline));
        while focus_id < total
            invariant
                observer_pov.wf(),
                giver_pov.wf(),
                gp == giver_pov,
                giver_pov.sd() == observer_pov.sd(),
                total == observer_pov.v().total_ids(),
                total <= 30,
                focus_id <= total,
                forall|i: int| #[trigger] in_mask(candidates, i) <==> focus_candidate(*observer_pov, f, *clue, i),
                hyps_views(out@) == focus_subs(gp, *observer_pov, f, *clue, focus_id as int, deadline),
                f < MAX_CARDS_IN_DECK,
                forall|j: int| 0 <= j < out@.len() ==> updates_wf((#[trigger] out@[j])@.immediate),
                forall|i: int| 0 <= i < 64 ==> (#[trigger] in_mask(union_mask, i) <==> (i < focus_id && union_fallback(gp, *observer_pov, f, *clue, i))),
            decreases total - focus_id,
        {
            let ghost before = out@;
            if test_bit(candidates, focus_id) {
                match giver_pov.away_value(focus_id) {
                    Some(away) => {
                        if away > 1 {
                            if Self::connecting_cards_are_known(focus_id, away, &giver_pov) {
                                union_mask = union_mask | bit(focus_id);
                            }
                        } else if away == 1 {
                            let (mut subs, strict) = holder_subhypotheses(&giver_pov, f, focus_id, deadline);
                            let ghost more = subs@;
                            out.append(&mut subs);
                            assert(hyps_views(out@) =~= hyps_views(before) + hyps_views(more));
                            assert forall|j: int| 0 <= j < out@.len() implies updates_wf((#[trigger] out@[j])@.immediate) by {
                                if j < before.len() {
                                    assert(out@[j] == before[j]);
                                } else {
                                    assert(out@[j] == more[j - before.len()]);
                                }
                            }
                            if strict {
                                union_mask = union_mask | bit(focus_id);
                            }
                        }
                    },
                    None => {},
                }
            }
            proof {
                assert(hyps_views(out@) == focus_subs(gp, *observer_pov, f, *clue, focus_id + 1, deadline));
            }
            focus_id += 1;
        }
        proof {
            lemma_mask_of_eq(union_mask, gp.v().total_ids(), |i: int| union_fallback(gp, *observer_pov, f, *clue, i));
            let s2 = snapshot_at(history@, prev_turn(turn))->0;
            assert(s2 == *snap);
        }
        let mut result = dedup_hypotheses(out);
        if union_mask != 0 {
            let v = vec![KnowledgeUpdate::NarrowPossibilities { card_deck_index: f, mask: union_mask }];
            assert(v@ =~= seq![KnowledgeUpdate::NarrowPossibilities { card_deck_index: f, mask: union_mask }]);
            let ghost before = result@;
            result.push(Hypothesis::unconditional(v));
            assert(hyps_views(result@) =~= hyps_views(before).push(hyp_unconditional(v@)));
            assert forall|j: int| 0 <= j < result@.len() implies updates_wf((#[trigger] result@[j])@.immediate) by {
                if j < before.len() {
                    assert(result@[j] == before[j]);
                }
            }
        }
        result
    }

    /// The union of every delayed-play narrowing, on the focus (see [`delayed_updates`]).
    pub fn clue_knowledge_updates(
        &self,
        player_index: PlayerIndex,
        touched: &[CardDeckIndex],
        clue: &Clue,
        turn: usize,
        history: &[GameStateSnapshot],
        observer_pov: &LightweightPlayerPOV,
    ) -> (r: Hypothesis)
        requires
            observer_pov.wf(),
            history_wf(history@, &observer_pov.sd()),
            clue_args_wf(player_index, touched@, &observer_pov.sd()),
        ensures
            r@ == delayed_updates(player_index, touched@, *clue, turn, history@, *observer_pov),
            updates_wf(r@.immediate),
    {
        let multi = self.clue_knowledge_updates_multi(player_index, touched, clue, turn, history, observer_pov);
        let ghost hs = hyps_views(multi@);
        let mut focus_card: Option<CardDeckIndex> = None;
        let mut mask: u64 = 0;
        let mut i: usize = 0;
        assert(hs.subrange(0, 0) =~= Seq::<HypothesisView>::empty());
        while i < multi.len()
            invariant
                hs == hyps_views(multi@),
                i <= multi@.len(),
                focus_card == last_narrow_target(hs.subrange(0, i as int)),
                mask == narrow_union(hs.subrange(0, i as int)),
                forall|k: int| 0 <= k < multi@.len() ==> updates_wf((#[trigger] multi@[k])@.immediate),
                focus_card matches Some(c) ==> c < MAX_CARDS_IN_DECK,
            decreases multi.len() - i,
        {
            let h = &multi[i];
            let ghost us = h.immediate@;
            let ghost fc0 = focus_card;
            let ghost m0 = mask;
            let mut hf: Option<CardDeckIndex> = None;
            let mut hm: u64 = 0;
            let mut j: usize = 0;
            assert(us.subrange(0, 0) =~= Seq::<KnowledgeUpdate>::empty());
            while j < h.immediate.len()
                invariant
                    us == h.immediate@,
                    j <= us.len(),
                    hf == updates_last_narrow_target(us.subrange(0, j as int)),
                    hm == updates_narrow_union(us.subrange(0, j as int)),
                    updates_wf(us),
                    hf matches Some(c) ==> c < MAX_CARDS_IN_DECK,
                decreases h.immediate.len() - j,
            {
                proof {
                    let t = us.subrange(0, j + 1);
                    assert(t.drop_last() =~= us.subrange(0, j as int));
                    assert(t.last() == us[j as int]);
                }
                match h.immediate[j] {
                    KnowledgeUpdate::NarrowPossibilities { card_deck_index, mask: m } => {
                        hf = Some(card_deck_index);
                        hm = hm | m;
                    },
                    _ => {
                        hm = hm | 0;
                    },
                }
                j += 1;
            }
            assert(us.subrange(0, us.len() as int) == us);
            proof {
                let t = hs.subrange(0, i + 1);
                assert(t.drop_last() =~= hs.subrange(0, i as int));
                assert(t.last() == h@);
            }
            if let Some(c) = hf {
                focus_card = Some(c);
            }
            mask = mask | hm;
            i += 1;
        }
        assert(hs.subrange(0, multi@.len() as int) =~= hs);
        match focus_card {
            Some(c) => {
                let v = vec![KnowledgeUpdate::NarrowPossibilities { card_deck_index: c, mask }];
                assert(v@ =~= seq![KnowledgeUpdate::NarrowPossibilities { card_deck_index: c, mask }]);
                Hypothesis::unconditional(v)
            },
            None => Hypothesis::empty(),
        }
    }
}

} // verus!
