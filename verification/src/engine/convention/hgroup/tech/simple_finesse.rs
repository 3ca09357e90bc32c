//! Finesse: clue a card one away from playable whose connecting card sits on the finesse
//! position of a teammate who plays before the receiver.
use vstd::prelude::*;
use crate::bits::{group_bits, in_mask, bit, single, test_bit, lemma_zero_iff};
use crate::engine::convention::hgroup::h_group_core::{finesse_position, focus, get_clue_focus, get_finesse_position, has_on_finesse_position};
use crate::engine::convention::hgroup::h_group_tech::PlayClueTech;
use crate::engine::convention::hgroup::signal::Signal;
use crate::engine::convention::hgroup::tech::{
    lemma_select_clues_member,
    candidate_clues, clue_args_wf, clue_candidates, lemma_select_flagged, prev_turn,
    round_deadline, round_deadline_of, select_actions, select_clues, snapshot_at, snapshot_ref, triples_view,
};
use crate::engine::game_state_snapshot::{history_wf, GameStateSnapshot};
use crate::engine::knowledge::knowledge_update::{
    hyp_empty, hyp_provisional, hyp_unconditional, updates_wf, Hypothesis, HypothesisView, KnowledgeUpdate, PendingTrigger,
};
use crate::engine::knowledge::lightweight_player_pov::LightweightPlayerPOV;
use crate::game::action::{GameAction, GameActionView};
use crate::game::card::{CardDeckIndex, VariantCardId};
use crate::game::clue::Clue;
use crate::game::static_game_data::plays_before_spec;
use crate::game::{PlayerIndex, MAX_CARDS_IN_DECK};

verus! {

broadcast use group_bits;

/// Clue a card one away from playable whose connecting card sits on the finesse position
/// (newest untouched card) of a teammate who plays before the receiver. From the receiver's
/// POV this is one interpretation among several; it stays provisional until the finessed
/// teammate blind-plays.
pub struct SimpleFinesse;

impl PlayClueTech for SimpleFinesse {}

/// Player `p`, neither giver nor receiver and playing before the receiver, holds `conn` on
/// its finesse position as `gp` sees it.
pub open spec fn finesse_holder(gp: LightweightPlayerPOV, conn: int, p: int, receiver: int, giver: int) -> bool {
    &&& p != giver
    &&& p != receiver
    &&& plays_before_spec(gp.sd().number_of_players as int, p, receiver, giver)
    &&& finesse_position(gp, p) matches Some(idx)
    &&& gp.card_id(idx as int) == Some(conn as u8)
}

/// Some player can be finessed for `conn`.
pub open spec fn finesse_reachable(gp: LightweightPlayerPOV, conn: int, receiver: int, giver: int) -> bool {
    exists|p: int| 0 <= p < gp.sd().number_of_players && #[trigger] finesse_holder(gp, conn, p, receiver, giver)
}

/// Identity `id` of a focus in `target`'s hand is one away from playable, its connecting
/// card is not gotten, and a teammate can be finessed for it.
pub open spec fn finesse_setup(pov: LightweightPlayerPOV, id: int, target: int) -> bool {
    &&& id < pov.v().total_ids()
    &&& pov.away(id) == Some(1u8)
    &&& !pov.gotten(id - 1)
    &&& finesse_reachable(pov, id - 1, target, pov.ts().active_player_index as int)
}

/// The focus card of a clue to `target` is known to `pov` and sets up a finesse.
pub open spec fn finesse_clue_setup(pov: LightweightPlayerPOV, target: usize, focus_idx: u8) -> bool {
    pov.card_id(focus_idx as int) matches Some(id) && finesse_setup(pov, id as int, target as int)
}

/// Identity `i` of the focus, allowed by `obs` and touched by the clue, would have set up a
/// finesse from the giver's POV.
pub open spec fn finesse_candidate(obs: LightweightPlayerPOV, gp: LightweightPlayerPOV, f: u8, clue: Clue, i: int, receiver: int, giver: int) -> bool {
    &&& 0 <= i < obs.v().total_ids()
    &&& in_mask(obs.kv().effective_mask(f as int, &obs.v()), i)
    &&& obs.v().clue_touches(clue.clue_type, clue.clue_value as int, i)
    &&& gp.away(i) == Some(1u8)
    &&& finesse_reachable(gp, i - 1, receiver, giver)
}

pub open spec fn finesse_matches(receiver: usize, touched: Seq<u8>, clue: Clue, turn: usize, history: Seq<GameStateSnapshot>, obs: LightweightPlayerPOV) -> bool {
    match snapshot_at(history, prev_turn(turn)) {
        None => false,
        Some(snap) => {
            let giver = snap.table_state.active_player_index;
            let gp = snap.pov(giver, &obs.sd());
            match focus(gp, receiver as int, touched) {
                None => false,
                Some(f) => exists|i: int| #[trigger] finesse_candidate(obs, gp, f, clue, i, receiver as int, giver as int),
            }
        },
    }
}

/// From the receiver's POV, player `p` may be finessed: its finesse card is playable and
/// the identity after it is one the clue touches.
pub open spec fn receiver_finesse_ok(gp: LightweightPlayerPOV, p: int, receiver: int, giver: int, clue: Clue) -> bool {
    &&& p != giver
    &&& p != receiver
    &&& plays_before_spec(gp.sd().number_of_players as int, p, receiver, giver)
    &&& finesse_position(gp, p) matches Some(fi)
    &&& gp.playable(fi as int)
    &&& gp.card_id(fi as int) matches Some(cid)
    &&& cid + 1 < gp.v().total_ids()
    &&& gp.v().clue_touches(clue.clue_type, clue.clue_value as int, cid + 1)
}

/// The first player among `p..n` that the receiver may see finessed.
pub open spec fn first_receiver_finesse(gp: LightweightPlayerPOV, receiver: int, giver: int, clue: Clue, n: int, p: int) -> Option<int>
    decreases n - p,
{
    if p >= n {
        None
    } else if receiver_finesse_ok(gp, p, receiver, giver, clue) {
        Some(p)
    } else {
        first_receiver_finesse(gp, receiver, giver, clue, n, p + 1)
    }
}

/// The first player among `p..n` that can be finessed for `conn`.
pub open spec fn first_finesse_holder(gp: LightweightPlayerPOV, conn: int, receiver: int, giver: int, n: int, p: int) -> Option<int>
    decreases n - p,
{
    if p >= n {
        None
    } else if finesse_holder(gp, conn, p, receiver, giver) {
        Some(p)
    } else {
        first_finesse_holder(gp, conn, receiver, giver, n, p + 1)
    }
}

/// The receiver holds a provisional narrowing of the focus to the identity after the
/// finesse card of the first finessable player, confirmed when that player blind-plays it;
/// the finessed player learns the identity of its finesse card and a play signal on it.
pub open spec fn finesse_updates(receiver: usize, touched: Seq<u8>, clue: Clue, turn: usize, history: Seq<GameStateSnapshot>, obs: LightweightPlayerPOV) -> HypothesisView {
    match snapshot_at(history, prev_turn(turn)) {
        None => hyp_empty(),
        Some(snap) => {
            let giver = snap.table_state.active_player_index as int;
            let gp = snap.pov(snap.table_state.active_player_index, &obs.sd());
            let n = obs.sd().number_of_players as int;
            match focus(gp, receiver as int, touched) {
                None => hyp_empty(),
                Some(f) => if obs.me() == receiver {
                    match first_receiver_finesse(gp, receiver as int, giver, clue, n, 0) {
                        None => hyp_empty(),
                        Some(q) => {
                            let fi = finesse_position(gp, q)->0;
                            let cid = gp.card_id(fi as int)->0;
                            hyp_provisional(
                                seq![KnowledgeUpdate::NarrowPossibilities { card_deck_index: f, mask: single(cid + 1) }],
                                PendingTrigger::BlindPlay {
                                    player: q as usize,
                                    expected_card: fi,
                                    expected_identity: None,
                                    deadline_turn: round_deadline(turn, n),
                                },
                            )
                        },
                    }
                } else {
                    match gp.card_id(f as int) {
                        Some(id) => if id < gp.v().total_ids() && gp.away(id as int) == Some(1u8) {
                            match first_finesse_holder(gp, id - 1, receiver as int, giver, n, 0) {
                                None => hyp_empty(),
                                Some(q) => {
                                    let fi = finesse_position(gp, q)->0;
                                    hyp_unconditional(
                                        seq![
                                            KnowledgeUpdate::NarrowPossibilities { card_deck_index: fi, mask: single(id - 1) },
                                            KnowledgeUpdate::AddSignal {
                                                card_deck_index: fi,
                                                signal: Signal::Play { card_deck_index: fi, committed_identity: (id - 1) as u8 },
                                            },
                                        ],
                                    )
                                },
                            }
                        } else {
                            hyp_empty()
                        },
                        None => hyp_empty(),
                    }
                },
            }
        },
    }
}

/// `pov` knows card `f` to be an identity exactly one away from playable: its stack shows
/// the rank just below the one before it.
pub open spec fn focus_one_away(pov: LightweightPlayerPOV, f: u8) -> bool {
    pov.card_id(f as int) matches Some(id) && id < pov.v().total_ids() && pov.ts().stack(id as int / 5) + 1 == id as int % 5
}

/// `a` is one of the clues the player on turn can give (see [`candidate_clues`]) whose
/// focus card is known to be exactly one away from playable.
pub open spec fn finesse_on_one_away(pov: LightweightPlayerPOV, a: GameActionView) -> bool {
    let cands = candidate_clues(pov, pov.sd().number_of_players as int);
    exists|j: int| 0 <= j < cands.len() && #[trigger] cands[j].1 == a && focus_one_away(pov, cands[j].2)
}

/// An observed clue reads as a finesse only if the giver's board had, for some identity the
/// clue touches, its stack exactly one rank short of it.
pub proof fn lemma_finesse_match_one_away(receiver: usize, touched: Seq<u8>, clue: Clue, turn: usize, history: Seq<GameStateSnapshot>, obs: LightweightPlayerPOV)
    ensures
        finesse_matches(receiver, touched, clue, turn, history, obs) ==> {
            &&& 0 <= prev_turn(turn) < history.len()
            &&& exists|i: int| 0 <= i < obs.v().total_ids() && obs.v().clue_touches(clue.clue_type, clue.clue_value as int, i)
                && #[trigger] history[prev_turn(turn)].table_state.stack(i / 5) + 1 == i % 5
        },
{
    if finesse_matches(receiver, touched, clue, turn, history, obs) {
        let snap = history[prev_turn(turn)];
        let giver = snap.table_state.active_player_index;
        let gp = snap.pov(giver, &obs.sd());
        let f = focus(gp, receiver as int, touched)->0;
        let i = choose|i: int| #[trigger] finesse_candidate(obs, gp, f, clue, i, receiver as int, giver as int);
        LightweightPlayerPOV::lemma_pov_of(
            giver,
            &snap.team_knowledge.knowledge(giver as int),
            &snap.team_knowledge,
            &snap.table_state,
            &obs.sd(),
        );
        assert(gp.ts() == snap.table_state);
        assert(gp.away(i) == Some(1u8));
        assert(!gp.ts().is_played(i));
        assert(history[prev_turn(turn)].table_state.stack(i / 5) + 1 == i % 5);
    }
}

/// A finesse is only set up on a focus exactly one away from playable.
pub proof fn lemma_finesse_setup_one_away(pov: LightweightPlayerPOV, target: usize, f: u8)
    requires
        pov.wf(),
    ensures
        finesse_clue_setup(pov, target, f) ==> focus_one_away(pov, f),
{
    pov.lemma_wf();
    if finesse_clue_setup(pov, target, f) {
        let id = pov.card_id(f as int)->0 as int;
        assert(0 <= pov.ts().stack(id / 5) <= 5);
        assert(pov.away(id) == Some(1u8));
        assert(!pov.ts().is_played(id));
    }
}

/// Every finesse clue proposed has a focus exactly one away from playable.
pub proof fn lemma_finesse_clues_one_away(pov: LightweightPlayerPOV, k: int)
    requires
        pov.wf(),
        0 <= k < select_clues(
            candidate_clues(pov, pov.sd().number_of_players as int),
            |t: usize, f: u8| finesse_clue_setup(pov, t, f),
        ).len(),
    ensures
        finesse_on_one_away(pov, select_clues(candidate_clues(pov, pov.sd().number_of_players as int), |t: usize, f: u8| finesse_clue_setup(pov, t, f))[k]),
{
    let cands = candidate_clues(pov, pov.sd().number_of_players as int);
    let keep = |t: usize, f: u8| finesse_clue_setup(pov, t, f);
    lemma_select_clues_member(cands, keep, k);
    let j = choose|j: int| 0 <= j < cands.len() && (#[trigger] cands[j]).1 == select_clues(cands, keep)[k] && keep(cands[j].0, cands[j].2);
    assert(keep(cands[j].0, cands[j].2));
    lemma_finesse_setup_one_away(pov, cands[j].0, cands[j].2);
    assert(cands[j].1 == select_clues(cands, keep)[k]);
}

impl SimpleFinesse {
    /// Exec form of [`finesse_holder`].
    fn is_finesse_holder(gp: &LightweightPlayerPOV, conn: VariantCardId, p: usize, receiver: usize, giver: usize) -> (r: bool)
        requires
            gp.wf(),
            p < gp.sd().number_of_players,
            receiver < gp.sd().number_of_players,
            giver < gp.sd().number_of_players,
        ensures
            r == finesse_holder(*gp, conn as int, p as int, receiver as int, giver as int),
    {
        proof {
            gp.lemma_wf();
        }
        p != giver && p != receiver && gp.static_data().plays_before(p, receiver, giver) && has_on_finesse_position(conn, p, gp)
    }

    /// Exec form of [`finesse_reachable`].
    fn is_finesse_reachable(gp: &LightweightPlayerPOV, conn: VariantCardId, receiver: usize, giver: usize) -> (r: bool)
        requires
            gp.wf(),
            receiver < gp.sd().number_of_players,
            giver < gp.sd().number_of_players,
        ensures
            r == finesse_reachable(*gp, conn as int, receiver as int, giver as int),
    {
        proof {
            gp.lemma_wf();
        }
        let n = gp.static_data().num_players();
        let mut p: usize = 0;
        while p < n
            invariant
                gp.wf(),
                n == gp.sd().number_of_players,
                receiver < n,
                giver < n,
                p <= n,
                forall|q: int| 0 <= q < p ==> !#[trigger] finesse_holder(*gp, conn as int, q, receiver as int, giver as int),
            decreases n - p,
        {
            if Self::is_finesse_holder(gp, conn, p, receiver, giver) {
                return true;
            }
            p += 1;
        }
        false
    }

    /// Exec form of [`finesse_setup`].
    fn is_finesse_setup(focus_card: VariantCardId, target: usize, pov: &LightweightPlayerPOV) -> (r: bool)
        requires
            pov.wf(),
            target < pov.sd().number_of_players,
        ensures
            r == finesse_setup(*pov, focus_card as int, target as int),
            r ==> focus_card < pov.v().total_ids() && pov.ts().stack(focus_card as int / 5) + 1 == focus_card as int % 5,
    {
        proof {
            pov.lemma_wf();
        }
        if focus_card >= pov.static_data().variant.total_id_count() {
            return false;
        }
        if pov.away_value(focus_card) != Some(1u8) {
            return false;
        }
        let prerequisite = focus_card - 1;
        if pov.is_gotten(prerequisite) {
            return false;
        }
        Self::is_finesse_reachable(pov, prerequisite, target, pov.active_player_index())
    }

    /// Exec form of [`finesse_clue_setup`].
    fn is_finesse_clue(pov: &LightweightPlayerPOV, target: usize, focus_idx: CardDeckIndex) -> (r: bool)
        requires
            pov.wf(),
            target < pov.sd().number_of_players,
            focus_idx < MAX_CARDS_IN_DECK,
        ensures
            r == finesse_clue_setup(*pov, target, focus_idx),
    {
        match pov.card_identity(focus_idx) {
            Some(id) => Self::is_finesse_setup(id, target, pov),
            None => false,
        }
    }

    /// Every clue of the player on turn whose focus sets up a finesse.
    pub fn clue_game_actions(&self, pov: &LightweightPlayerPOV) -> (r: Vec<GameAction>)
        requires
            pov.wf(),
        ensures
            r@.map_values(|a: GameAction| a@) == select_clues(
                candidate_clues(*pov, pov.sd().number_of_players as int),
                |t: usize, f: u8| finesse_clue_setup(*pov, t, f),
            ),
            forall|k: int| 0 <= k < r@.len() ==> #[trigger] finesse_on_one_away(*pov, r@[k]@),
    {
        let cands = clue_candidates(pov);
        let mut flags: Vec<bool> = Vec::new();
        let mut k: usize = 0;
        while k < cands.len()
            invariant
                pov.wf(),
                k <= cands@.len(),
                flags@.len() == k,
                forall|j: int| 0 <= j < cands@.len() ==> (#[trigger] cands@[j]).2 < MAX_CARDS_IN_DECK && cands@[j].0 < pov.sd().number_of_players,
                forall|j: int| 0 <= j < k ==> flags@[j] == finesse_clue_setup(*pov, #[trigger] cands@[j].0, cands@[j].2),
            decreases cands.len() - k,
        {
            flags.push(Self::is_finesse_clue(pov, cands[k].0, cands[k].2));
            k += 1;
        }
        let r = select_actions(&cands, &flags);
        proof {
            let keep = |t: usize, f: u8| finesse_clue_setup(*pov, t, f);
            assert forall|j: int| 0 <= j < triples_view(cands@).len() implies flags@[j] == keep(#[trigger] triples_view(cands@)[j].0, triples_view(cands@)[j].2) by {
                assert(triples_view(cands@)[j].0 == cands@[j].0);
                assert(triples_view(cands@)[j].2 == cands@[j].2);
            }
            lemma_select_flagged(triples_view(cands@), flags@, keep);
            assert forall|k: int| 0 <= k < r@.len() implies #[trigger] finesse_on_one_away(*pov, r@[k]@) by {
                assert(r@.map_values(|a: GameAction| a@)[k] == r@[k]@);
                lemma_finesse_clues_one_away(*pov, k);
            }
        }
        r
    }

    /// Some focus identity the observer allows and the clue touches would have set up a
    /// finesse from the giver's POV.
    pub fn matches_clue(
        &self,
        target_player_index: PlayerIndex,
        touched: &[CardDeckIndex],
        clue: &Clue,
        turn: usize,
        history: &[GameStateSnapshot],
        observer_pov: &LightweightPlayerPOV,
    ) -> (r: bool)
        requires
            observer_pov.wf(),
            history_wf(history@, &observer_pov.sd()),
            clue_args_wf(target_player_index, touched@, &observer_pov.sd()),
        ensures
            r == finesse_matches(target_player_index, touched@, *clue, turn, history@, *observer_pov),
    {
        proof {
            observer_pov.lemma_wf();
        }
        let t = if turn == 0 { 0 } else { turn - 1 };
        let snap = match snapshot_ref(history, t) {
            Some(s) => s,
            None => return false,
        };
        let giver = snap.table_state.active_player_index;
        let giver_pov = snap.player_pov(giver, observer_pov.static_data());
        let f = match get_clue_focus(target_player_index, touched, &giver_pov) {
            Some(f) => f,
            None => return false,
        };
        let variant = &observer_pov.static_data().variant;
        let total = variant.total_id_count();
        let clue_mask = variant.empathy_for_clue(clue);
        let candidates = observer_pov.inferred_identities(f).as_bits() & clue_mask;
        let mut id: u8 = 0;
        assert(total <= 30);
        while id < total
            invariant
                observer_pov.wf(),
                giver_pov.wf(),
                giver_pov.sd() == observer_pov.sd(),
                giver_pov == snap.pov(giver, &observer_pov.sd()),
                snapshot_at(history@, prev_turn(turn)) == Some(*snap),
                giver == snap.table_state.active_player_index,
                giver < observer_pov.sd().number_of_players,
                target_player_index < observer_pov.sd().number_of_players,
                focus(giver_pov, target_player_index as int, touched@) == Some(f),
                *variant == observer_pov.v(),
                total == observer_pov.v().total_ids(),
                total <= 30,
                id <= total,
                forall|i: int| #[trigger] in_mask(candidates, i) <==> (in_mask(observer_pov.kv().effective_mask(f as int, &observer_pov.v()), i)
                    && observer_pov.v().clue_touches(clue.clue_type, clue.clue_value as int, i)),
                forall|i: int| 0 <= i < id ==> !#[trigger] finesse_candidate(*observer_pov, giver_pov, f, *clue, i, target_player_index as int, giver as int),
            decreases total - id,
        {
            if test_bit(candidates, id) && giver_pov.away_value(id) == Some(1u8) {
                assert(id >= 1);
                if Self::is_finesse_reachable(&giver_pov, id - 1, target_player_index, giver) {
                    proof {
                        let s2 = snapshot_at(history@, prev_turn(turn))->0;
                        assert(s2 == *snap);
                        assert(s2.pov(s2.table_state.active_player_index, &observer_pov.sd()) == giver_pov);
                        assert(focus(s2.pov(s2.table_state.active_player_index, &observer_pov.sd()), target_player_index as int, touched@) == Some(f));
                        assert(finesse_candidate(*observer_pov, s2.pov(s2.table_state.active_player_index, &observer_pov.sd()), f, *clue, id as int, target_player_index as int, s2.table_state.active_player_index as int));
                        assert(finesse_matches(target_player_index, touched@, *clue, turn, history@, *observer_pov));
                    }
                    return true;
                }
            }
            id += 1;
        }
        false
    }

    /// Exec form of [`receiver_finesse_ok`].
    fn receiver_ok(gp: &LightweightPlayerPOV, p: usize, receiver: usize, giver: usize, clue_mask: u64, clue: &Clue) -> (r: bool)
        requires
            gp.wf(),
            p < gp.sd().number_of_players,
            receiver < gp.sd().number_of_players,
            giver < gp.sd().number_of_players,
            forall|i: int| #[trigger] in_mask(clue_mask, i) <==> gp.v().clue_touches(clue.clue_type, clue.clue_value as int, i),
        ensures
            r == receiver_finesse_ok(*gp, p as int, receiver as int, giver as int, *clue),
    {
        proof {
            gp.lemma_wf();
        }
        if p == giver || p == receiver || !gp.static_data().plays_before(p, receiver, giver) {
            return false;
        }
        match get_finesse_position(p, gp) {
            Some(fi) => {
                if !gp.is_playable(fi) {
                    return false;
                }
                match gp.card_identity(fi) {
                    Some(cid) => {
                        let focus_id = cid + 1;
                        focus_id < gp.static_data().variant.total_id_count() && test_bit(clue_mask, focus_id)
                    },
                    None => false,
                }
            },
            None => false,
        }
    }

    /// The receiver holds a provisional narrowing of the focus; the finessed player learns
    /// its finesse card (see [`finesse_updates`]).
    pub fn clue_knowledge_updates(
        &self,
        clue_receiver_index: PlayerIndex,
        touched: &[CardDeckIndex],
        clue: &Clue,
        turn: usize,
        history: &[GameStateSnapshot],
        observer_pov: &LightweightPlayerPOV,
    ) -> (r: Hypothesis)
        requires
            observer_pov.wf(),
            history_wf(history@, &observer_pov.sd()),
            clue_args_wf(clue_receiver_index, touched@, &observer_pov.sd()),
        ensures
            r@ == finesse_updates(clue_receiver_index, touched@, *clue, turn, history@, *observer_pov),
            updates_wf(r@.immediate),
    {
        proof {
            observer_pov.lemma_wf();
        }
        let t = if turn == 0 { 0 } else { turn - 1 };
        let snap = match snapshot_ref(history, t) {
            Some(s) => s,
            None => return Hypothesis::empty(),
        };
        let giver = snap.table_state.active_player_index;
        let giver_pov = snap.player_pov(giver, observer_pov.static_data());
        let observer = observer_pov.player_index();
        let f = match get_clue_focus(clue_receiver_index, touched, &giver_pov) {
            Some(f) => f,
            None => return Hypothesis::empty(),
        };
        let num_players = observer_pov.static_data().num_players();
        let ghost gp = giver_pov;
        proof {
            giver_pov.lemma_wf();
        }
        if observer == clue_receiver_index {
            let clue_mask = giver_pov.static_data().variant.empathy_for_clue(clue);
            let mut p: usize = 0;
            while p < num_players
                invariant
                    giver_pov.wf(),
                    num_players == giver_pov.sd().number_of_players,
                    clue_receiver_index < num_players,
                    giver < num_players,
                    gp == giver_pov,
                    f < MAX_CARDS_IN_DECK,
                    observer == clue_receiver_index,
                    snapshot_at(history@, prev_turn(turn)) == Some(*snap),
                    giver == snap.table_state.active_player_index,
                    giver_pov == snap.pov(giver, &observer_pov.sd()),
                    giver_pov.sd() == observer_pov.sd(),
                    giver_pov.v().total_ids() <= 30,
                    focus(giver_pov, clue_receiver_index as int, touched@) == Some(f),
                    observer == observer_pov.me(),
                    forall|i: int| #[trigger] in_mask(clue_mask, i) <==> giver_pov.v().clue_touches(clue.clue_type, clue.clue_value as int, i),
                    p <= num_players,
                    first_receiver_finesse(gp, clue_receiver_index as int, giver as int, *clue, num_players as int, 0)
                        == first_receiver_finesse(gp, clue_receiver_index as int, giver as int, *clue, num_players as int, p as int),
                decreases num_players - p,
            {
                if Self::receiver_ok(&giver_pov, p, clue_receiver_index, giver, clue_mask, clue) {
                    let fi = get_finesse_position(p, &giver_pov).unwrap();
                    let cid = giver_pov.card_identity(fi).unwrap();
                    assert(cid + 1 < 30);
                    let v = vec![KnowledgeUpdate::NarrowPossibilities { card_deck_index: f, mask: bit(cid + 1) }];
                    assert(v@ =~= seq![KnowledgeUpdate::NarrowPossibilities { card_deck_index: f, mask: single(cid + 1) }]);
                    let trigger = PendingTrigger::BlindPlay {
                        player: p,
                        expected_card: fi,
                        expected_identity: None,
                        deadline_turn: round_deadline_of(turn, num_players),
                    };
                    return Hypothesis::provisional(v, trigger);
                }
                p += 1;
            }
            return Hypothesis::empty();
        }
        let focus_id = match giver_pov.card_identity(f) {
            Some(id) => id,
            None => return Hypothesis::empty(),
        };
        if focus_id >= giver_pov.static_data().variant.total_id_count() || giver_pov.away_value(focus_id) != Some(1u8) {
            return Hypothesis::empty();
        }
        let connecting_id = focus_id - 1;
        let mut p: usize = 0;
        while p < num_players
            invariant
                giver_pov.wf(),
                num_players == giver_pov.sd().number_of_players,
                clue_receiver_index < num_players,
                giver < num_players,
                gp == giver_pov,
                observer != clue_receiver_index,
                connecting_id as int == giver_pov.card_id(f as int)->0 - 1,
                giver_pov.card_id(f as int) is Some,
                giver_pov.card_id(f as int)->0 < giver_pov.v().total_ids(),
                giver_pov.away(giver_pov.card_id(f as int)->0 as int) == Some(1u8),
                snapshot_at(history@, prev_turn(turn)) == Some(*snap),
                giver == snap.table_state.active_player_index,
                giver_pov == snap.pov(giver, &observer_pov.sd()),
                giver_pov.sd() == observer_pov.sd(),
                giver_pov.v().total_ids() <= 30,
                focus(giver_pov, clue_receiver_index as int, touched@) == Some(f),
                observer == observer_pov.me(),
                p <= num_players,
                first_finesse_holder(gp, connecting_id as int, clue_receiver_index as int, giver as int, num_players as int, 0)
                    == first_finesse_holder(gp, connecting_id as int, clue_receiver_index as int, giver as int, num_players as int, p as int),
            decreases num_players - p,
        {
            if Self::is_finesse_holder(&giver_pov, connecting_id, p, clue_receiver_index, giver) {
                let fi = get_finesse_position(p, &giver_pov).unwrap();
                let v = vec![
                    KnowledgeUpdate::NarrowPossibilities { card_deck_index: fi, mask: bit(connecting_id) },
                    KnowledgeUpdate::AddSignal {
                        card_deck_index: fi,
                        signal: Signal::Play { card_deck_index: fi, committed_identity: connecting_id },
                    },
                ];
                assert(v@ =~= seq![
                    KnowledgeUpdate::NarrowPossibilities { card_deck_index: fi, mask: single(connecting_id as int) },
                    KnowledgeUpdate::AddSignal {
                        card_deck_index: fi,
                        signal: Signal::Play { card_deck_index: fi, committed_identity: connecting_id },
                    },
                ]);
                return Hypothesis::unconditional(v);
            }
            p += 1;
        }
        Hypothesis::empty()
    }
}

} // verus!
