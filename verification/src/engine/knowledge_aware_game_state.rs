//! The table state kept in sync with every player's convention knowledge.
use vstd::prelude::*;
use crate::engine::convention::convention_tech::{action_args_wf, action_recorded, ConventionTech};
use crate::engine::convention::hgroup::tech::delayed_play_clue::hyps_views;
use crate::engine::game_state_snapshot::{history_wf, GameStateSnapshot};
use crate::engine::knowledge::knowledge_update::{updates_wf, Hypothesis, HypothesisView};
use crate::engine::knowledge::lightweight_player_pov::LightweightPlayerPOV;
use crate::engine::knowledge::player_knowledge::{after_cohort, hyps_view, ids_after_cohort, resolved, stored_wf, KnowledgeView};
use crate::engine::knowledge::player_pov_snapshot::PlayerPOVSnapshot;
use crate::engine::knowledge::team_knowledge::{revealed, TeamKnowledge};
use crate::engine::convention::hgroup::tech::clue_args_wf;
use crate::game::action::TouchedCards;
use crate::game::clue::Clue;
use crate::engine::knowledge::knowledge_update::{HypothesisId, KnowledgeUpdate};
use crate::engine::convention::hgroup::h_group_convention_set::{baseline_pairs, good_touch_baseline_spec, HGroupConventionSet};
use crate::engine::convention::hgroup::h_group_core::{still_needed_cards_mask, still_needed_mask};
use crate::bits::{group_bits, in_mask, is_singleton, single, bit, test_bit};
use crate::game::action::{GameAction, GameActionView};
use crate::game::card::{known_id, narrowed, CardDeckIndex, CardIdentityMask, VariantCardId};
use crate::game::table_state::{remove_all, slice_contains, TableState, TableView};
use crate::game::static_game_data::StaticGameData;
use crate::game::variant::Variant;
use crate::game::{PlayerIndex, MAX_CARDS_IN_DECK, MAX_PLAYERS_IN_GAME, MAX_STRIKES};

verus! {

/// The non-empty hypotheses of `s`, in order.
pub open spec fn non_empty_views(s: Seq<HypothesisView>) -> Seq<HypothesisView>
    decreases s.len(),
{
    if s.len() == 0 {
        Seq::empty()
    } else if !s.last().is_empty() {
        non_empty_views(s.drop_last()).push(s.last())
    } else {
        non_empty_views(s.drop_last())
    }
}

/// Hypotheses tagged with their tier.
pub open spec fn tagged(s: Seq<HypothesisView>, tier: u8) -> Seq<(u8, HypothesisView)> {
    s.map_values(|h: HypothesisView| (tier, h))
}

/// The tiered hypotheses collected from techs `i..`, given the primary and fallback
/// priorities met so far: techs must be sorted by priority; the scan stops at a third
/// priority; a matching tech with non-empty hypotheses joins tier 0 at the primary
/// priority (the first met) and tier 1 otherwise.
pub open spec fn collect_from(
    techs: Seq<ConventionTech>,
    i: int,
    primary: Option<u8>,
    fallback: Option<u8>,
    a: crate::game::action::GameActionView,
    history: Seq<GameStateSnapshot>,
    obs: LightweightPlayerPOV,
) -> Seq<(u8, HypothesisView)>
    decreases techs.len() - i,
{
    if i < 0 || i >= techs.len() {
        Seq::empty()
    } else {
        let t = techs[i];
        let pr = t.priority();
        if fallback matches Some(fp) && pr > fp {
            Seq::empty()
        } else if !t.explains(a, history, obs) {
            collect_from(techs, i + 1, primary, fallback, a, history, obs)
        } else {
            let ne = non_empty_views(t.interpretations(a, history, obs));
            if ne.len() == 0 {
                collect_from(techs, i + 1, primary, fallback, a, history, obs)
            } else {
                match primary {
                    None => tagged(ne, 0) + collect_from(techs, i + 1, Some(pr), fallback, a, history, obs),
                    Some(pp) => if pr == pp {
                        tagged(ne, 0) + collect_from(techs, i + 1, primary, fallback, a, history, obs)
                    } else {
                        tagged(ne, 1) + collect_from(
                            techs,
                            i + 1,
                            primary,
                            if fallback is None { Some(pr) } else { fallback },
                            a,
                            history,
                            obs,
                        )
                    },
                }
            }
        }
    }
}

/// The hypotheses of `action` from `observer_pov`, in up to two priority tiers (tier 0:
/// the highest matching priority; tier 1: the next). `techs` must be sorted by priority;
/// empty hypotheses are dropped.
pub fn collect_hypotheses(
    techs: &[ConventionTech],
    action: &GameAction,
    history: &[GameStateSnapshot],
    observer_pov: &LightweightPlayerPOV,
) -> (r: Vec<(u8, Hypothesis)>)
    requires
        observer_pov.wf(),
        history_wf(history@, &observer_pov.sd()),
        action_args_wf(action@, &observer_pov.sd()),
        action_recorded(action@, history@.len() as int),
    ensures
        hyps_view(r@) == collect_from(techs@, 0, None, None, action@, history@, *observer_pov),
        forall|k: int| 0 <= k < r@.len() ==> updates_wf((#[trigger] r@[k]).1@.immediate),
{
    let ghost total = collect_from(techs@, 0, None, None, action@, history@, *observer_pov);
    let mut primary: Option<u8> = None;
    let mut fallback: Option<u8> = None;
    let mut result: Vec<(u8, Hypothesis)> = Vec::new();
    let mut i: usize = 0;
    assert(hyps_view(result@) + collect_from(techs@, 0, primary, fallback, action@, history@, *observer_pov) =~= total);
    while i < techs.len()
        invariant
            observer_pov.wf(),
            history_wf(history@, &observer_pov.sd()),
            action_args_wf(action@, &observer_pov.sd()),
            action_recorded(action@, history@.len() as int),
            i <= techs@.len(),
            total == collect_from(techs@, 0, None, None, action@, history@, *observer_pov),
            hyps_view(result@) + collect_from(techs@, i as int, primary, fallback, action@, history@, *observer_pov) == total,
            forall|k: int| 0 <= k < result@.len() ==> updates_wf((#[trigger] result@[k]).1@.immediate),
        decreases techs.len() - i,
    {
        let tech = techs[i];
        let priority = tech.interpretation_priority();
        let stop = match fallback {
            Some(fp) => priority > fp,
            None => false,
        };
        if stop {
            assert(collect_from(techs@, i as int, primary, fallback, action@, history@, *observer_pov) =~= Seq::empty());
            assert(hyps_view(result@) =~= total);
            return result;
        }
        if tech.matches_action(action, history, observer_pov) {
            let hyps = tech.knowledge_updates_multi(action, history, observer_pov);
            let ghost hv = hyps_views(hyps@);
            let mut ne: Vec<Hypothesis> = Vec::new();
            let mut k: usize = 0;
            assert(hyps_views(ne@) =~= non_empty_views(hv.subrange(0, 0)));
            while k < hyps.len()
                invariant
                    hv == hyps_views(hyps@),
                    k <= hyps@.len(),
                    hyps_views(ne@) == non_empty_views(hv.subrange(0, k as int)),
                    forall|j: int| 0 <= j < hyps@.len() ==> updates_wf((#[trigger] hyps@[j])@.immediate),
                    forall|j: int| 0 <= j < ne@.len() ==> updates_wf((#[trigger] ne@[j])@.immediate),
                decreases hyps.len() - k,
            {
                let ghost before = ne@;
                proof {
                    let t = hv.subrange(0, k + 1);
                    assert(t.drop_last() =~= hv.subrange(0, k as int));
                    assert(t.last() == hyps@[k as int]@);
                }
                if !hyps[k].is_empty() {
                    ne.push(hyps[k].duplicate());
                    assert(hyps_views(ne@) =~= hyps_views(before).push(hyps@[k as int]@));
                }
                k += 1;
            }
            assert(hv.subrange(0, hyps@.len() as int) =~= hv);
            if ne.len() > 0 {
                let tier: u8 = match primary {
                    None => {
                        primary = Some(priority);
                        0
                    },
                    Some(pp) => if priority == pp {
                        0
                    } else {
                        if fallback.is_none() {
                            fallback = Some(priority);
                        }
                        1
                    },
                };
                let ghost before = result@;
                let mut j: usize = 0;
                while j < ne.len()
                    invariant
                        j <= ne@.len(),
                        hyps_view(result@) == hyps_view(before) + tagged(hyps_views(ne@), tier).subrange(0, j as int),
                        forall|q: int| 0 <= q < ne@.len() ==> updates_wf((#[trigger] ne@[q])@.immediate),
                        forall|q: int| 0 <= q < result@.len() ==> updates_wf((#[trigger] result@[q]).1@.immediate),
                    decreases ne.len() - j,
                {
                    let ghost r0 = result@;
                    result.push((tier, ne[j].duplicate()));
                    assert(hyps_view(result@) =~= hyps_view(r0).push((tier, ne@[j as int]@)));
                    assert(hyps_view(result@) =~= hyps_view(before) + tagged(hyps_views(ne@), tier).subrange(0, j + 1));
                    j += 1;
                }
                assert(tagged(hyps_views(ne@), tier).subrange(0, ne@.len() as int) =~= tagged(hyps_views(ne@), tier));
            }
        }
        i += 1;
    }
    assert(collect_from(techs@, i as int, primary, fallback, action@, history@, *observer_pov) =~= Seq::empty());
    assert(hyps_view(result@) =~= total);
    result
}


/// Own-hand record of `kv` without deck position `idx`.
pub open spec fn without_own(kv: KnowledgeView, idx: int) -> KnowledgeView {
    KnowledgeView { own_hand: kv.own_hand & !single(idx), ..kv }
}

/// Own-hand record of `kv` with deck position `idx`.
pub open spec fn with_own(kv: KnowledgeView, idx: int) -> KnowledgeView {
    KnowledgeView { own_hand: kv.own_hand | single(idx), ..kv }
}

/// Baseline identities of a card for the good-touch check: every identity when nothing
/// narrowed it.
pub open spec fn current_bits(kv: KnowledgeView, idx: int) -> u64 {
    match kv.inferred[idx] {
        Some(m) => m.bits,
        None => u64::MAX,
    }
}

/// Good-touch reinterpretation of one card: a touched card whose identities still meet
/// `needed` is narrowed to `needed`; a card already known to be trash is left alone.
pub open spec fn regood_card(kv: KnowledgeView, idx: int, touched: u64, needed: u64, v: &Variant) -> KnowledgeView {
    if in_mask(touched, idx) && current_bits(kv, idx) & needed != 0 {
        kv.narrow(idx, needed, v)
    } else {
        kv
    }
}

/// [`regood_card`] over a hand, slot by slot.
pub open spec fn regood_hand(kv: KnowledgeView, hand: Seq<CardDeckIndex>, touched: u64, needed: u64, v: &Variant) -> KnowledgeView
    decreases hand.len(),
{
    if hand.len() == 0 {
        kv
    } else {
        regood_card(regood_hand(kv, hand.drop_last(), touched, needed, v), hand.last() as int, touched, needed, v)
    }
}

/// Every seated player's knowledge of their own hand reinterpreted under good touch
/// against the identities `ts` still needs.
pub open spec fn regood_team(views: Seq<KnowledgeView>, ts: &TableState, sd: &StaticGameData) -> Seq<KnowledgeView> {
    Seq::new(
        views.len(),
        |p: int|
            if p < sd.number_of_players {
                regood_hand(views[p], ts.hand(p), ts.clue_touched_cards, still_needed_mask(ts, sd), &sd.variant)
            } else {
                views[p]
            },
    )
}

/// The updates of `us` on deck positions of `own`, order kept.
pub open spec fn own_updates(us: Seq<KnowledgeUpdate>, own: u64) -> Seq<KnowledgeUpdate>
    decreases us.len(),
{
    if us.len() == 0 {
        Seq::empty()
    } else if in_mask(own, us.last().target() as int) {
        own_updates(us.drop_last(), own).push(us.last())
    } else {
        own_updates(us.drop_last(), own)
    }
}

/// Hypotheses cut down to their updates on `own`; those left empty are dropped.
pub open spec fn own_hyps(hs: Seq<(u8, HypothesisView)>, own: u64) -> Seq<(u8, HypothesisView)>
    decreases hs.len(),
{
    if hs.len() == 0 {
        Seq::empty()
    } else {
        let prev = own_hyps(hs.drop_last(), own);
        let f = HypothesisView { immediate: own_updates(hs.last().1.immediate, own), ..hs.last().1 };
        if f.is_empty() {
            prev
        } else {
            prev.push((hs.last().0, f))
        }
    }
}

/// Knowledge after storing a cohort, when the hypothesis ids it needs are still free.
pub open spec fn stored(kv: KnowledgeView, cohort: HypothesisId, hs: Seq<(u8, HypothesisView)>, next_id: int, v: &Variant) -> KnowledgeView {
    if next_id + hs.len() <= u32::MAX {
        after_cohort(kv, cohort, hs, next_id, v)
    } else {
        kv
    }
}

/// The id counter after [`stored`].
pub open spec fn ids_stored(hs: Seq<(u8, HypothesisView)>, next_id: int) -> int {
    if next_id + hs.len() <= u32::MAX {
        ids_after_cohort(hs, next_id)
    } else {
        next_id
    }
}

/// Player `t` stores as cohort `cohort` the part of `hs` on their own hand.
pub open spec fn store_own(views: Seq<KnowledgeView>, t: int, cohort: HypothesisId, hs: Seq<(u8, HypothesisView)>, next_id: int, v: &Variant) -> (Seq<KnowledgeView>, int) {
    let f = own_hyps(hs, views[t].own_hand);
    (views.update(t, stored(views[t], cohort, f, next_id, v)), ids_stored(f, next_id))
}

/// Players `i..n` but `skip` store, in seat order, the parts of `hs` on their own hands.
pub open spec fn spread_cohort(
    views: Seq<KnowledgeView>,
    i: int,
    n: int,
    skip: int,
    cohort: HypothesisId,
    hs: Seq<(u8, HypothesisView)>,
    next_id: int,
    v: &Variant,
) -> (Seq<KnowledgeView>, int)
    decreases n - i,
{
    if i >= n {
        (views, next_id)
    } else if i == skip {
        spread_cohort(views, i + 1, n, skip, cohort, hs, next_id, v)
    } else {
        let s = store_own(views, i, cohort, hs, next_id, v);
        spread_cohort(s.0, i + 1, n, skip, cohort, hs, s.1, v)
    }
}

/// Knowledge after the drawer `drawer` takes deck position `idx`, of identity `id`: the
/// drawer records it in their own hand and every other seated player sees it.
pub open spec fn seen_draw(views: Seq<KnowledgeView>, drawer: int, idx: int, id: int, n: int) -> Seq<KnowledgeView> {
    Seq::new(
        views.len(),
        |q: int|
            if q == drawer {
                with_own(views[q], idx)
            } else if q < n {
                revealed(views[q], idx, id)
            } else {
                views[q]
            },
    )
}

/// The identity a play of card `idx` resolves to, from the actor's knowledge `kv`: the
/// card's combined identities pin it down (narrowed to the playable ones when the actor
/// holds a play signal on it). An observer's identification `truth` overrides when the
/// actor's candidates exclude it. An identity outside the variant counts as unknown.
pub open spec fn play_identity(kv: KnowledgeView, idx: int, ts: &TableState, sd: &StaticGameData, truth: Option<VariantCardId>) -> Option<VariantCardId> {
    let c = kv.combined(idx, ts, &sd.variant);
    let from_empathy = empathy_play_id(kv, idx, ts, sd);
    let id = match truth {
        Some(t) => if in_mask(c, t as int) { from_empathy } else { Some(t) },
        None => from_empathy,
    };
    valid_id(id, sd)
}

/// The identity the actor's knowledge `kv` gives card `idx`: its combined identities pin it
/// down, narrowed to the playable ones when the actor holds a play signal on it.
pub open spec fn empathy_play_id(kv: KnowledgeView, idx: int, ts: &TableState, sd: &StaticGameData) -> Option<VariantCardId> {
    let c = kv.combined(idx, ts, &sd.variant);
    match known_id(c) {
        Some(i) => Some(i),
        None => if kv.play_signal(idx) {
            match narrowed(c, ts.playable_mask(&sd.variant)) {
                Some(m) => known_id(m.bits),
                None => None,
            }
        } else {
            None
        },
    }
}

/// `id`, when it is an identity of the variant.
pub open spec fn valid_id(id: Option<VariantCardId>, sd: &StaticGameData) -> Option<VariantCardId> {
    match id {
        Some(i) => if i < sd.variant.total_ids() { Some(i) } else { None },
        None => None,
    }
}

/// The actor knows the card is playable without knowing which identity it is: with a
/// play signal, some candidate is playable; without one, every candidate is.
pub open spec fn known_playable(kv: KnowledgeView, idx: int, ts: &TableState, sd: &StaticGameData) -> bool {
    let c = kv.combined(idx, ts, &sd.variant);
    let pm = ts.playable_mask(&sd.variant);
    c != 0 && if kv.play_signal(idx) { c & pm != 0 } else { c & !pm == 0 }
}

/// The deck position a synthesized draw takes, when the deck is not empty.
pub open spec fn refill_pos(deck_size: u8, next: u8) -> Option<CardDeckIndex> {
    if deck_size > 0 { Some(next) } else { None }
}

/// The table after the active player refills their hand from deck position `next`.
pub open spec fn refilled(t: TableView, next: u8) -> TableView {
    if t.deck_size > 0 { t.drawn(next) } else { t }
}

/// Knowledge after player `p` gives up `idx` and takes `drawn` into their hand.
pub open spec fn hand_cycled(views: Seq<KnowledgeView>, p: int, idx: int, drawn: Option<CardDeckIndex>) -> Seq<KnowledgeView> {
    let v1 = views.update(p, without_own(views[p], idx));
    match drawn {
        Some(d) => v1.update(p, with_own(v1[p], d as int)),
        None => v1,
    }
}

/// The identity of card `idx` known exactly to the first seated player from `i` on, other
/// than `p`, in seat order.
pub open spec fn spectator_id(views: Seq<KnowledgeView>, i: int, n: int, p: int, idx: int, ts: &TableState, v: &Variant) -> Option<VariantCardId>
    decreases n - i,
{
    if i >= n {
        None
    } else if i != p && is_singleton(views[i].combined(idx, ts, v)) {
        known_id(views[i].combined(idx, ts, v))
    } else {
        spectator_id(views, i + 1, n, p, idx, ts, v)
    }
}

/// The identity a discard of card `idx` by `p` reveals: `truth`'s identification, else
/// that of the first other player who knows the card exactly. An identity outside the
/// variant counts as unknown.
pub open spec fn discard_identity(views: Seq<KnowledgeView>, p: int, idx: int, ts: &TableState, sd: &StaticGameData, truth: Option<VariantCardId>) -> Option<VariantCardId> {
    valid_id(
        match truth {
            Some(t) => Some(t),
            None => spectator_id(views, 0, sd.number_of_players as int, p, idx, ts, &sd.variant),
        },
        sd,
    )
}

/// Raw clue narrowing of the receiver's knowledge, card by card of `hand`: a touched card
/// narrows to the clue's identities, an untouched one to the others.
pub open spec fn clue_narrowed_hand(kv: KnowledgeView, hand: Seq<CardDeckIndex>, touched: Seq<CardDeckIndex>, mask: u64, v: &Variant) -> KnowledgeView
    decreases hand.len(),
{
    if hand.len() == 0 {
        kv
    } else {
        let prev = clue_narrowed_hand(kv, hand.drop_last(), touched, mask, v);
        if touched.contains(hand.last()) {
            prev.narrow(hand.last() as int, mask, v)
        } else {
            prev.narrow(hand.last() as int, !mask, v)
        }
    }
}

/// Baseline narrowings `(card, mask)` applied in order; a card whose identities are all
/// outside `needed` (known trash) is left alone.
pub open spec fn baseline_applied(kv: KnowledgeView, pairs: Seq<(CardDeckIndex, u64)>, needed: u64, v: &Variant) -> KnowledgeView
    decreases pairs.len(),
{
    if pairs.len() == 0 {
        kv
    } else {
        let prev = baseline_applied(kv, pairs.drop_last(), needed, v);
        if current_bits(prev, pairs.last().0 as int) & needed == 0 {
            prev
        } else {
            prev.narrow(pairs.last().0 as int, pairs.last().1, v)
        }
    }
}

/// Table `ts` with player `t` on turn.
pub open spec fn on_turn(ts: TableState, t: int) -> TableState {
    TableState { active_player_index: t as usize, ..ts }
}

/// Seat `i` of the non-receivers' interpretation of a clue: `teams[i]` is the team's
/// knowledge before seat `i` interprets, `ids[i]` the id counter; seat `i` (not the
/// receiver) reads the clue with the giver's knowledge and the table with itself on turn,
/// and stores the part on its own hand.
pub open spec fn clue_step(
    teams: Seq<TeamKnowledge>,
    ids: Seq<int>,
    i: int,
    receiver: int,
    giver: int,
    cohort: HypothesisId,
    ts: TableState,
    lh: Seq<GameStateSnapshot>,
    a: GameActionView,
    techs: Seq<ConventionTech>,
    sd: StaticGameData,
) -> bool {
    if i == receiver {
        teams[i + 1].views() == teams[i].views() && ids[i + 1] == ids[i]
    } else {
        let hs = collect_from(
            techs,
            0,
            None,
            None,
            a,
            lh,
            LightweightPlayerPOV::pov_of(i as usize, &teams[i].knowledge(giver), &teams[i], &on_turn(ts, i), &sd),
        );
        &&& (teams[i + 1].views(), ids[i + 1]) == store_own(teams[i].views(), i, cohort, hs, ids[i], &sd.variant)
        &&& forall|k: int| 0 <= k < hs.len() ==> updates_wf((#[trigger] hs[k]).1.immediate)
    }
}

/// The receiver's knowledge after the clue's raw narrowing and the good-touch baseline.
pub open spec fn clue_baseline_views(o: KnowledgeAwareGameState, ts: TableState, touched: Seq<CardDeckIndex>, clue: Clue, receiver: usize) -> Seq<KnowledgeView> {
    let v = o.sd().variant;
    let mask = v.clue_mask(clue.clue_type, clue.clue_value as int);
    let pairs = baseline_pairs(touched, good_touch_baseline_spec(&clue, receiver, &ts, &o.sd()));
    o.views().update(
        receiver as int,
        baseline_applied(
            clue_narrowed_hand(o.team().view_of(receiver as int), o.ts().hand(receiver as int), touched, mask, &v),
            pairs,
            still_needed_mask(&ts, &o.sd()),
            &v,
        ),
    )
}

/// How a clue is interpreted, with the witnesses the interpretation goes through: `lh`, the
/// history handed to the techs (the clue's turn and those before it, each a copy of the
/// board before the clue with the knowledge after its baseline); `mid`, the team's knowledge
/// after the baseline; `teams` and `ids`, the knowledge and id counter before each seat's
/// interpretation. The receiver interprets first, from its own POV on the clued table `ts`,
/// and stores the whole interpretation; then every other seat in order (see [`clue_step`]).
pub open spec fn clue_witness(
    o: KnowledgeAwareGameState,
    ts: TableState,
    result: Seq<KnowledgeView>,
    next_id: int,
    a: GameActionView,
    techs: Seq<ConventionTech>,
    lh: Seq<GameStateSnapshot>,
    mid: TeamKnowledge,
    teams: Seq<TeamKnowledge>,
    ids: Seq<int>,
) -> bool {
    match a {
        GameActionView::Clue { player_index: receiver, touched, clue, turn } => {
            let vm = clue_baseline_views(o, ts, touched, clue, receiver);
            let rh = collect_from(
                techs,
                0,
                None,
                None,
                a,
                lh,
                LightweightPlayerPOV::pov_of(receiver, &mid.knowledge(receiver as int), &mid, &ts, &o.sd()),
            );
            let first = id_after(o.next_id()) as int;
            &&& lh.len() == turn + 1
            &&& forall|k: int| 0 <= k < lh.len() ==> {
                &&& (#[trigger] lh[k]).wf(&o.sd())
                &&& lh[k].table_state@ == o.ts()@
                &&& lh[k].team_knowledge.views() == vm
            }
            &&& mid.views() == vm
            &&& forall|k: int| 0 <= k < rh.len() ==> updates_wf((#[trigger] rh[k]).1.immediate)
            &&& teams.len() == o.n() + 1
            &&& ids.len() == o.n() + 1
            &&& teams[0].views() == vm.update(receiver as int, stored(vm[receiver as int], o.next_id(), rh, first, &o.sd().variant))
            &&& ids[0] == ids_stored(rh, first)
            &&& forall|i: int| 0 <= i < o.n() ==> #[trigger] clue_step(teams, ids, i, receiver as int, o.ts().active_player_index as int, o.next_id(), ts, lh, a, techs, o.sd())
            &&& result == teams[o.n()].views()
            &&& next_id == ids[o.n()]
        },
        _ => false,
    }
}

/// The knowledge `result` and id counter `next_id` are an interpretation of clue `a`, given
/// from the state `o` and leaving the table `ts` (see [`clue_witness`]).
pub open spec fn clue_outcome(
    o: KnowledgeAwareGameState,
    ts: TableState,
    result: Seq<KnowledgeView>,
    next_id: int,
    a: GameActionView,
    techs: Seq<ConventionTech>,
) -> bool {
    exists|lh: Seq<GameStateSnapshot>, mid: TeamKnowledge, teams: Seq<TeamKnowledge>, ids: Seq<int>|
        #[trigger] clue_witness(o, ts, result, next_id, a, techs, lh, mid, teams, ids)
}

/// A play of card `idx` from the state `o`, leaving the table `ts`: the table's view, the
/// next synthesized deck position, the phantom plays, the knowledge of every seat and the
/// id counter. The play resolves to [`play_identity`]; when that stays unknown but the
/// actor knew the card playable, it counts as a phantom play. The actor refills from the
/// deck; a play that advanced a stack triggers good-touch reinterpretation on `ts`; then
/// every other seat stores, in seat order, the part on its own hand of the play's
/// interpretation from the actor's POV, as one cohort.
pub open spec fn play_outcome(
    o: KnowledgeAwareGameState,
    ts: TableState,
    idx: CardDeckIndex,
    techs: Seq<ConventionTech>,
    truth: Option<VariantCardId>,
) -> (TableView, u8, u8, Seq<KnowledgeView>, int) {
    let p = o.ts().active_player_index as int;
    let kv = o.team().view_of(p);
    let id = play_identity(kv, idx as int, &o.ts(), &o.sd(), truth);
    let drawn = refill_pos(o.ts().deck_size, o.next_draw());
    let v2 = hand_cycled(o.views(), p, idx as int, drawn);
    let advanced = id matches Some(i) && o.ts().is_playable_id(&o.sd().variant, i as int);
    let v3 = if advanced { regood_team(v2, &ts, &o.sd()) } else { v2 };
    let spread = spread_cohort(v3, 0, o.n(), p, o.next_id(), o.play_hyps(techs, idx), id_after(o.next_id()) as int, &o.sd().variant);
    (
        refilled(
            match id {
                Some(i) => o.ts()@.played(idx, i),
                None => o.ts()@.without(idx),
            },
            o.next_draw(),
        ),
        if drawn is Some { (o.next_draw() + 1) as u8 } else { o.next_draw() },
        if id is None && known_playable(kv, idx as int, &o.ts(), &o.sd()) {
            if o.phantoms() < u8::MAX { (o.phantoms() + 1) as u8 } else { o.phantoms() }
        } else {
            o.phantoms()
        },
        spread.0,
        spread.1,
    )
}

/// A discard of card `idx` from the state `o`: the table's view, the next synthesized deck
/// position and the knowledge of every seat. The card is recorded with the identity of
/// [`discard_identity`] when known; the actor refills from the deck.
pub open spec fn discard_outcome(o: KnowledgeAwareGameState, idx: CardDeckIndex, truth: Option<VariantCardId>) -> (TableView, u8, Seq<KnowledgeView>) {
    let p = o.ts().active_player_index as int;
    let id = discard_identity(o.views(), p, idx as int, &o.ts(), &o.sd(), truth);
    let drawn = refill_pos(o.ts().deck_size, o.next_draw());
    (
        refilled(
            match id {
                Some(i) => o.ts()@.discarded_as(idx, i),
                None => o.ts()@.discarded_unknown(idx),
            },
            o.next_draw(),
        ),
        if drawn is Some { (o.next_draw() + 1) as u8 } else { o.next_draw() },
        hand_cycled(o.views(), p, idx as int, drawn),
    )
}

/// Every seated player resolves the pending hypotheses that `actor`'s action `a` triggers;
/// `played` is the identity of a played card, when known.
pub open spec fn resolved_team(views: Seq<KnowledgeView>, n: int, actor: PlayerIndex, a: GameActionView, played: Option<VariantCardId>, v: &Variant) -> Seq<KnowledgeView> {
    Seq::new(views.len(), |p: int| if p < n { resolved(views[p], actor, a, played, v) } else { views[p] })
}

/// What [`KnowledgeAwareGameState::apply`] makes of state `o` with action `a`, the techs
/// `techs`, where `truth_id` gives the identity of a deck position as whoever reasons about
/// the action sees it: the state `f` after it.
pub open spec fn apply_outcome(o: KnowledgeAwareGameState, f: KnowledgeAwareGameState, a: GameActionView, techs: Seq<ConventionTech>, truth_id: spec_fn(int) -> Option<VariantCardId>) -> bool {
    let actor = o.ts().active_player_index;
    let v = o.sd().variant;
    &&& f.wf()
    &&& f.sd() == o.sd()
    &&& f.hist() == o.hist()
    &&& f.team().spec_num_players() == o.team().spec_num_players()
    &&& match a {
        GameActionView::Play { card_deck_index, .. } => {
            let po = play_outcome(o, f.ts(), card_deck_index, techs, truth_id(card_deck_index as int));
            let played = match truth_id(card_deck_index as int) {
                Some(t) => Some(t),
                None => play_identity(o.team().view_of(actor as int), card_deck_index as int, &o.ts(), &o.sd(), None),
            };
            &&& f.ts()@ == po.0
            &&& f.next_draw() == po.1
            &&& f.phantoms() == po.2
            &&& f.views() == resolved_team(po.3, o.n(), actor, a, played, &v)
            &&& f.next_id() == po.4
            &&& o.ts().score_spec() + o.phantoms() <= f.ts().score_spec() + f.phantoms()
            &&& f.ts().score_spec() + f.phantoms() <= o.ts().score_spec() + o.phantoms() + 1
            &&& f.phantoms() >= o.phantoms()
            &&& f.next_draw() == if o.ts().deck_size > 0 { o.next_draw() + 1 } else { o.next_draw() as int }
            &&& (o.ts().deck_size == 0 || o.next_draw() != card_deck_index) ==> {
                &&& !f.ts().hand(actor as int).contains(card_deck_index)
                &&& !in_mask(f.views()[actor as int].own_hand, card_deck_index as int)
            }
        },
        GameActionView::Discard { card_deck_index, .. } => {
            let d = discard_outcome(o, card_deck_index, truth_id(card_deck_index as int));
            &&& f.ts()@ == d.0
            &&& f.next_draw() == d.1
            &&& f.views() == resolved_team(d.2, o.n(), actor, a, None, &v)
            &&& f.next_id() == o.next_id()
            &&& f.phantoms() == o.phantoms()
        },
        GameActionView::Clue { player_index, touched, clue, .. } => {
            &&& f.ts()@ == o.ts()@.clued(touched, player_index as int, v.clue_mask(clue.clue_type, clue.clue_value as int))
            &&& exists|vs: Seq<KnowledgeView>|
                #[trigger] clue_outcome(o, f.ts(), vs, f.next_id() as int, a, techs)
                    && f.views() == resolved_team(vs, o.n(), actor, a, None, &v)
            &&& f.next_draw() == o.next_draw()
            &&& f.phantoms() == o.phantoms()
        },
        GameActionView::Draw { player_index, card_deck_index } => {
            &&& f.ts()@ == o.ts()@.drawn(card_deck_index)
            &&& f.views() == o.views().update(player_index as int, with_own(o.team().view_of(player_index as int), card_deck_index as int))
            &&& f.next_draw() == o.next_draw()
            &&& f.next_id() == o.next_id()
            &&& f.phantoms() == o.phantoms()
        },
    }
    &&& a is Clue ==> forall|p: int, j: int, i: int|
        0 <= p < o.n() && 0 <= j < MAX_CARDS_IN_DECK ==> (#[trigger] in_mask(f.views()[p].base(j, &o.sd().variant), i)
            ==> in_mask(o.views()[p].base(j, &o.sd().variant), i))
}

/// The opening hand of player `p` when each player in turn takes `h` cards from deck
/// position `first` on: newest first.
pub open spec fn dealt_hand(first: int, h: int, p: int) -> Seq<CardDeckIndex> {
    Seq::new(h as nat, |i: int| (first + p * h + h - 1 - i) as u8)
}

/// Knowledge after the first `j` cards of a deal: card `d` of the deal is deck position
/// `first + d`, of identity `deck[first + d]`, taken by player `d / h`, the other `n - 1`
/// seated players seeing it.
pub open spec fn dealt_views(views: Seq<KnowledgeView>, deck: Seq<VariantCardId>, first: int, h: int, n: int, j: int) -> Seq<KnowledgeView>
    decreases j,
{
    if j <= 0 {
        views
    } else {
        seen_draw(dealt_views(views, deck, first, h, n, j - 1), (j - 1) / h, first + j - 1, deck[first + j - 1] as int, n)
    }
}

/// An action [`KnowledgeAwareGameState::apply`] takes: seated players, deck positions, and a
/// clue turn that leaves room for the history handed to the techs.
pub open spec fn apply_args_wf(a: GameActionView, sd: &StaticGameData) -> bool {
    match a {
        GameActionView::Draw { player_index, card_deck_index } => player_index < sd.number_of_players && card_deck_index < MAX_CARDS_IN_DECK,
        GameActionView::Clue { turn, .. } => action_args_wf(a, sd) && turn < usize::MAX,
        _ => action_args_wf(a, sd),
    }
}

/// The id after `id`, saturating.
pub open spec fn id_after(id: HypothesisId) -> HypothesisId {
    if id < u32::MAX { (id + 1) as u32 } else { id }
}

/// A [`TableState`] with every player's knowledge, kept in sync as actions are applied.
///
/// Mutators come in two flavours: `*_of_specific_card` when the card identity is known
/// (spectator, replay), and without suffix when it is not (search over hidden state).
/// [`record_snapshot`](Self::record_snapshot) before each action builds the turn history.
pub struct KnowledgeAwareGameState {
    pub table_state: TableState,
    pub team_knowledge: TeamKnowledge,
    static_data: StaticGameData,
    /// The deck position the next synthesized draw takes.
    pub next_deck_index: u8,
    history: Vec<GameStateSnapshot>,
    next_hypothesis_id: HypothesisId,
    /// Successful plays whose identity was ambiguous: they count for the score without
    /// committing to a stack.
    phantom_plays: u8,
}

impl KnowledgeAwareGameState {
    pub closed spec fn ts(&self) -> TableState {
        self.table_state
    }

    pub closed spec fn team(&self) -> TeamKnowledge {
        self.team_knowledge
    }

    pub closed spec fn next_draw(&self) -> u8 {
        self.next_deck_index
    }

    pub closed spec fn sd(&self) -> StaticGameData {
        self.static_data
    }

    pub closed spec fn hist(&self) -> Seq<GameStateSnapshot> {
        self.history@
    }

    pub closed spec fn next_id(&self) -> HypothesisId {
        self.next_hypothesis_id
    }

    pub closed spec fn phantoms(&self) -> u8 {
        self.phantom_plays
    }

    /// Number of seated players.
    pub open spec fn n(&self) -> int {
        self.sd().number_of_players as int
    }

    /// The knowledge of every seat.
    pub open spec fn views(&self) -> Seq<KnowledgeView> {
        self.team().views()
    }

    /// The board fits the game, knowledge holds one record per seat, every recorded
    /// snapshot fits the game, and synthesized draws stay within the deck positions.
    pub closed spec fn wf(&self) -> bool {
        &&& self.table_state.wf(&self.static_data)
        &&& self.team_knowledge.wf()
        &&& self.team_knowledge.spec_num_players() == self.static_data.number_of_players
        &&& history_wf(self.history@, &self.static_data)
        &&& self.next_deck_index + self.table_state.deck_size <= MAX_CARDS_IN_DECK
    }

    pub proof fn lemma_wf(&self)
        requires
            self.wf(),
        ensures
            self.ts().wf(&self.sd()),
            self.sd().wf(),
            self.team().wf(),
            self.team().spec_num_players() == self.sd().number_of_players,
            self.sd().number_of_players <= MAX_PLAYERS_IN_GAME,
            history_wf(self.hist(), &self.sd()),
            self.next_draw() + self.ts().deck_size <= MAX_CARDS_IN_DECK,
    {
        self.team_knowledge.lemma_wf();
    }

    /// Everything but the knowledge is unchanged.
    pub closed spec fn same_but_team(&self, o: &Self) -> bool {
        &&& self.table_state == o.table_state
        &&& self.static_data == o.static_data
        &&& self.next_deck_index == o.next_deck_index
        &&& self.history == o.history
        &&& self.next_hypothesis_id == o.next_hypothesis_id
        &&& self.phantom_plays == o.phantom_plays
    }

    /// Everything but the knowledge and the hypothesis ids is unchanged.
    pub closed spec fn same_but_team_ids(&self, o: &Self) -> bool {
        &&& self.table_state == o.table_state
        &&& self.static_data == o.static_data
        &&& self.next_deck_index == o.next_deck_index
        &&& self.history == o.history
        &&& self.phantom_plays == o.phantom_plays
    }

    /// A fresh game: full deck, empty hands, no knowledge, no history.
    #[must_use]
    pub fn new(static_data: StaticGameData) -> (r: Self)
        requires
            static_data.wf(),
            crate::game::table_state::sum_prefix(static_data.variant.card_copies_count_by_id@, static_data.variant.total_ids()) <= MAX_CARDS_IN_DECK,
        ensures
            r.wf(),
            r.sd() == static_data,
            r.ts().fresh(&static_data),
            r.team().fresh(static_data.number_of_players as int),
            r.next_draw() == 0,
            r.hist().len() == 0,
            r.next_id() == 0,
            r.phantoms() == 0,
    {
        let table_state = TableState::new(&static_data);
        let team_knowledge = TeamKnowledge::new(static_data.num_players());
        KnowledgeAwareGameState {
            table_state,
            team_knowledge,
            static_data,
            next_deck_index: 0,
            history: Vec::new(),
            next_hypothesis_id: 0,
            phantom_plays: 0,
        }
    }

    /// Built from an existing table state and knowledge (e.g. for search).
    #[must_use]
    pub fn from_parts(static_data: StaticGameData, table_state: TableState, team_knowledge: TeamKnowledge, next_deck_index: u8) -> (r: Self)
        requires
            table_state.wf(&static_data),
            team_knowledge.wf(),
            team_knowledge.spec_num_players() == static_data.number_of_players,
            next_deck_index + table_state.deck_size <= MAX_CARDS_IN_DECK,
        ensures
            r.wf(),
            r.sd() == static_data,
            r.ts() == table_state,
            r.team() == team_knowledge,
            r.next_draw() == next_deck_index,
            r.hist().len() == 0,
            r.next_id() == 0,
            r.phantoms() == 0,
    {
        KnowledgeAwareGameState {
            table_state,
            team_knowledge,
            static_data,
            next_deck_index,
            history: Vec::new(),
            next_hypothesis_id: 0,
            phantom_plays: 0,
        }
    }

    #[must_use]
    pub fn current_turn(&self) -> (r: usize)
        ensures
            r == self.ts().current_turn,
    {
        self.table_state.current_turn
    }

    /// The POV of `player_index` at this moment.
    pub closed spec fn pov_spec(&self, player_index: usize) -> LightweightPlayerPOV<'_> {
        LightweightPlayerPOV::pov_of(
            player_index,
            &self.team_knowledge.knowledge(player_index as int),
            &self.team_knowledge,
            &self.table_state,
            &self.static_data,
        )
    }

    /// The game as `player_index` sees it.
    #[must_use]
    pub fn player_pov(&self, player_index: usize) -> (r: LightweightPlayerPOV<'_>)
        requires
            self.wf(),
            player_index < self.sd().number_of_players,
        ensures
            r == self.pov_spec(player_index),
            r.wf(),
            r.me() == player_index,
            r.kv() == self.team().view_of(player_index as int),
            r.team() == self.team(),
            r.ts() == self.ts(),
            r.sd() == self.sd(),
    {
        proof {
            self.team_knowledge.lemma_wf();
        }
        let k = self.team_knowledge.player(player_index);
        let r = LightweightPlayerPOV::new(player_index, k, &self.team_knowledge, &self.table_state, &self.static_data);
        proof {
            LightweightPlayerPOV::lemma_pov_of(player_index, k, &self.team_knowledge, &self.table_state, &self.static_data);
        }
        r
    }

    /// Remove `card_deck_index` from the own-hand record of `player_index`.
    fn remove_card_from_own_hand(&mut self, player_index: usize, card_deck_index: CardDeckIndex)
        requires
            old(self).wf(),
            player_index < old(self).n(),
            card_deck_index < MAX_CARDS_IN_DECK,
        ensures
            final(self).wf(),
            final(self).same_but_team(old(self)),
            final(self).team().spec_num_players() == old(self).team().spec_num_players(),
            final(self).views() == old(self).views().update(
                player_index as int,
                without_own(old(self).team().view_of(player_index as int), card_deck_index as int),
            ),
    {
        proof {
            self.lemma_wf();
        }
        let own = self.team_knowledge.player(player_index).own_hand;
        self.team_knowledge.set_own_hand(player_index, own & !bit(card_deck_index));
        assert(self.views() =~= old(self).views().update(
            player_index as int,
            without_own(old(self).team().view_of(player_index as int), card_deck_index as int),
        ));
    }

    /// If the deck is not empty, the active player draws the next synthesized deck
    /// position, recorded in the own hand of `player_index`.
    pub fn update_with_unkown_card_draw(&mut self, player_index: usize)
        requires
            old(self).wf(),
            player_index < old(self).n(),
        ensures
            final(self).wf(),
            old(self).ts().deck_size == 0 ==> *final(self) == *old(self),
            old(self).ts().deck_size > 0 ==> {
                &&& final(self).ts()@ == old(self).ts()@.drawn(old(self).next_draw())
                &&& final(self).next_draw() == old(self).next_draw() + 1
                &&& final(self).views() == old(self).views().update(
                    player_index as int,
                    with_own(old(self).team().view_of(player_index as int), old(self).next_draw() as int),
                )
            },
            final(self).sd() == old(self).sd(),
            final(self).hist() == old(self).hist(),
            final(self).next_id() == old(self).next_id(),
            final(self).phantoms() == old(self).phantoms(),
            final(self).team().spec_num_players() == old(self).team().spec_num_players(),
    {
        proof {
            self.lemma_wf();
        }
        if self.table_state.deck_size == 0 {
            return;
        }
        let idx = self.next_deck_index;
        self.next_deck_index = idx + 1;
        self.table_state.update_with_draw_action(&self.static_data, idx);
        let own = self.team_knowledge.player(player_index).own_hand;
        self.team_knowledge.set_own_hand(player_index, own | bit(idx));
        assert(self.views() =~= old(self).views().update(
            player_index as int,
            with_own(old(self).team().view_of(player_index as int), idx as int),
        ));
    }

    /// Good-touch reinterpretation of every clue-touched card of every hand against the
    /// identities still needed (after a play that advanced a stack).
    fn reapply_good_touch_after_state_change(&mut self)
        requires
            old(self).wf(),
        ensures
            final(self).wf(),
            final(self).same_but_team(old(self)),
            final(self).team().spec_num_players() == old(self).team().spec_num_players(),
            final(self).views() == regood_team(old(self).views(), &old(self).ts(), &old(self).sd()),
    {
        proof {
            self.lemma_wf();
        }
        let still_needed = still_needed_cards_mask(&self.table_state, &self.static_data);
        let touched = self.table_state.clue_touched_cards;
        let num_players = self.static_data.num_players();
        let ghost v0 = old(self).views();
        let ghost ts = old(self).ts();
        let ghost sd = old(self).sd();
        let mut p: usize = 0;
        while p < num_players
            invariant
                self.wf(),
                self.same_but_team(old(self)),
                self.team().spec_num_players() == old(self).team().spec_num_players(),
                num_players == sd.number_of_players,
                num_players <= MAX_PLAYERS_IN_GAME,
                p <= num_players,
                ts == self.ts(),
                sd == self.sd(),
                v0 == old(self).views(),
                v0.len() == MAX_PLAYERS_IN_GAME,
                still_needed == still_needed_mask(&ts, &sd),
                touched == ts.clue_touched_cards,
                self.views() == Seq::new(
                    MAX_PLAYERS_IN_GAME as nat,
                    |q: int|
                        if q < p {
                            regood_hand(v0[q], ts.hand(q), touched, still_needed, &sd.variant)
                        } else {
                            v0[q]
                        },
                ),
            decreases num_players - p,
        {
            let hand_len = self.table_state.hands[p].len();
            let ghost vp = self.views();
            let mut k: usize = 0;
            while k < hand_len
                invariant
                    self.wf(),
                    self.same_but_team(old(self)),
                    self.team().spec_num_players() == old(self).team().spec_num_players(),
                    p < num_players,
                    num_players == sd.number_of_players,
                    num_players <= MAX_PLAYERS_IN_GAME,
                    ts == self.ts(),
                    sd == self.sd(),
                    hand_len == ts.hand(p as int).len(),
                    k <= hand_len,
                    vp.len() == MAX_PLAYERS_IN_GAME,
                    still_needed == still_needed_mask(&ts, &sd),
                    touched == ts.clue_touched_cards,
                    vp[p as int] == v0[p as int],
                    self.views() == vp.update(
                        p as int,
                        regood_hand(v0[p as int], ts.hand(p as int).subrange(0, k as int), touched, still_needed, &sd.variant),
                    ),
                decreases hand_len - k,
            {
                let idx = self.table_state.hands[p][k];
                let ghost before = self.views();
                proof {
                    let h = ts.hand(p as int).subrange(0, k + 1);
                    assert(h.drop_last() =~= ts.hand(p as int).subrange(0, k as int));
                    assert(h.last() == idx);
                    assert(idx < MAX_CARDS_IN_DECK);
                }
                if test_bit(touched, idx) {
                    let current = match self.team_knowledge.player(p).possible_identities(idx) {
                        Some(m) => m.as_bits(),
                        None => u64::MAX,
                    };
                    if current & still_needed != 0 {
                        self.team_knowledge.narrow_player(p, idx, still_needed, &self.static_data.variant);
                        assert(self.views() =~= before.update(p as int, before[p as int].narrow(idx as int, still_needed, &sd.variant)));
                    }
                }
                k += 1;
            }
            assert(ts.hand(p as int).subrange(0, hand_len as int) =~= ts.hand(p as int));
            assert(self.views() =~= Seq::new(
                MAX_PLAYERS_IN_GAME as nat,
                |q: int|
                    if q < p + 1 {
                        regood_hand(v0[q], ts.hand(q), touched, still_needed, &sd.variant)
                    } else {
                        v0[q]
                    },
            ));
            p += 1;
        }
        assert(self.views() =~= regood_team(v0, &ts, &sd));
    }

    /// `target` stores as cohort `cohort_id` the part of `hypotheses` on its own hand, when
    /// the hypothesis ids it needs are still free.
    fn store_own_cohort(&mut self, target: usize, cohort_id: HypothesisId, hypotheses: &Vec<(u8, Hypothesis)>)
        requires
            old(self).wf(),
            target < old(self).n(),
            forall|k: int| 0 <= k < hypotheses@.len() ==> updates_wf((#[trigger] hypotheses@[k]).1@.immediate),
        ensures
            final(self).wf(),
            final(self).same_but_team_ids(old(self)),
            final(self).team().spec_num_players() == old(self).team().spec_num_players(),
            (final(self).views(), final(self).next_id() as int) == store_own(
                old(self).views(),
                target as int,
                cohort_id,
                hyps_view(hypotheses@),
                old(self).next_id() as int,
                &old(self).sd().variant,
            ),
    {
        proof {
            self.lemma_wf();
        }
        let own = self.team_knowledge.player(target).own_hand;
        let ghost hv = hyps_view(hypotheses@);
        let mut filtered: Vec<(u8, Hypothesis)> = Vec::new();
        let mut i: usize = 0;
        while i < hypotheses.len()
            invariant
                i <= hypotheses@.len(),
                hv == hyps_view(hypotheses@),
                forall|k: int| 0 <= k < hypotheses@.len() ==> updates_wf((#[trigger] hypotheses@[k]).1@.immediate),
                hyps_view(filtered@) == own_hyps(hv.subrange(0, i as int), own),
                forall|k: int| 0 <= k < filtered@.len() ==> updates_wf((#[trigger] filtered@[k]).1@.immediate),
            decreases hypotheses.len() - i,
        {
            let h = &hypotheses[i].1;
            let tier = hypotheses[i].0;
            let mut immediate: Vec<KnowledgeUpdate> = Vec::new();
            let mut j: usize = 0;
            while j < h.immediate.len()
                invariant
                    j <= h.immediate@.len(),
                    updates_wf(h.immediate@),
                    immediate@ == own_updates(h.immediate@.subrange(0, j as int), own),
                    updates_wf(immediate@),
                decreases h.immediate.len() - j,
            {
                let u = h.immediate[j];
                proof {
                    let s = h.immediate@.subrange(0, j + 1);
                    assert(s.drop_last() =~= h.immediate@.subrange(0, j as int));
                    assert(s.last() == u);
                    assert(u.target() < MAX_CARDS_IN_DECK);
                }
                if test_bit(own, u.card_deck_index()) {
                    immediate.push(u);
                }
                j += 1;
            }
            assert(h.immediate@.subrange(0, h.immediate@.len() as int) =~= h.immediate@);
            let f = Hypothesis { immediate, trigger: h.trigger, alt_group: h.alt_group };
            let ghost before = filtered@;
            proof {
                let s = hv.subrange(0, i + 1);
                assert(s.drop_last() =~= hv.subrange(0, i as int));
                assert(s.last() == (tier, h@));
            }
            if !f.is_empty() {
                filtered.push((tier, f));
                assert(hyps_view(filtered@) =~= hyps_view(before).push((tier, f@)));
            }
            i += 1;
        }
        assert(hv.subrange(0, hypotheses@.len() as int) =~= hv);
        let ghost v0 = self.views();
        let room: u32 = u32::MAX - self.next_hypothesis_id;
        if filtered.len() <= room as usize {
            self.team_knowledge.apply_player_cohort(
                target,
                cohort_id,
                filtered,
                &mut self.next_hypothesis_id,
                &self.static_data.variant,
            );
            assert(self.views() =~= v0.update(
                target as int,
                stored(v0[target as int], cohort_id, own_hyps(hv, own), old(self).next_id() as int, &old(self).sd().variant),
            ));
        } else {
            assert(self.views() =~= v0.update(target as int, v0[target as int]));
        }
    }

    /// Deals the opening hands from `deck`: each player in seat order takes `hand_size`
    /// cards from the next deck positions, every other player seeing them; then player 0
    /// is on turn.
    pub fn deal(&mut self, deck: &Vec<VariantCardId>, hand_size: usize)
        requires
            old(self).wf(),
            old(self).n() * hand_size <= old(self).ts().deck_size,
            old(self).next_draw() + old(self).ts().deck_size <= deck.len(),
            forall|k: int| 0 <= k < deck.len() ==> #[trigger] deck@[k] < old(self).sd().variant.total_ids(),
        ensures
            final(self).wf(),
            final(self).sd() == old(self).sd(),
            final(self).ts().deck_size == old(self).ts().deck_size - old(self).n() * hand_size,
            final(self).next_draw() == old(self).next_draw() + old(self).n() * hand_size,
            final(self).ts()@ == (TableView {
                hands: final(self).ts()@.hands,
                deck_size: final(self).ts()@.deck_size,
                active_player_index: 0,
                ..old(self).ts()@
            }),
            forall|p: int| 0 <= p < old(self).n() ==> #[trigger] final(self).ts().hand(p) == dealt_hand(old(self).next_draw() as int, hand_size as int, p) + old(self).ts().hand(p),
            final(self).views() == dealt_views(old(self).views(), deck@, old(self).next_draw() as int, hand_size as int, old(self).n(), old(self).n() * hand_size),
            final(self).ts().clue_tokens == old(self).ts().clue_tokens,
            final(self).ts().strike_tokens == old(self).ts().strike_tokens,
            final(self).ts().current_turn == old(self).ts().current_turn,
            final(self).ts().active_player_index == 0,
            final(self).ts().score_spec() == old(self).ts().score_spec(),
            final(self).phantoms() == old(self).phantoms(),
            final(self).hist() == old(self).hist(),
            final(self).next_id() == old(self).next_id(),
    {
        proof {
            self.lemma_wf();
        }
        let ghost o = *old(self);
        let ghost nd0 = o.next_draw() as int;
        let ghost h = hand_size as int;
        let n = self.static_data.num_players();
        let mut dealt: usize = 0;
        let mut p: usize = 0;
        while p < n
            invariant
                self.wf(),
                self.sd() == o.sd(),
                n == o.n(),
                2 <= n <= MAX_PLAYERS_IN_GAME,
                p <= n,
                h == hand_size,
                nd0 == o.next_draw(),
                dealt == p * hand_size,
                n * hand_size <= o.ts().deck_size,
                o.next_draw() + o.ts().deck_size <= deck.len(),
                forall|k: int| 0 <= k < deck.len() ==> #[trigger] deck@[k] < o.sd().variant.total_ids(),
                self.ts().deck_size == o.ts().deck_size - dealt,
                self.next_draw() == o.next_draw() + dealt,
                self.ts()@ == (TableView {
                    hands: self.ts()@.hands,
                    deck_size: self.ts()@.deck_size,
                    active_player_index: self.ts()@.active_player_index,
                    ..o.ts()@
                }),
                forall|q: int| 0 <= q < p ==> #[trigger] self.ts().hand(q) == dealt_hand(nd0, h, q) + o.ts().hand(q),
                forall|q: int| p <= q < n ==> #[trigger] self.ts().hand(q) == o.ts().hand(q),
                self.views() == dealt_views(o.views(), deck@, nd0, h, n as int, dealt as int),
                self.phantoms() == o.phantoms(),
                self.hist() == o.hist(),
                self.next_id() == o.next_id(),
            decreases n - p,
        {
            let ghost before = *self;
            self.table_state.active_player_index = p;
            let mut k: usize = 0;
            proof {
                assert forall|q: int| 0 <= q < n implies #[trigger] self.ts().hand(q) == before.ts().hand(q) by {
                    assert(self.table_state.hands@[q] == before.table_state.hands@[q]);
                }
                assert((p + 1) * hand_size == p * hand_size + hand_size) by (nonlinear_arith);
                assert((p + 1) * hand_size <= n * hand_size) by (nonlinear_arith)
                    requires
                        p + 1 <= n,
                ;
                assert(self.ts().hand(p as int) =~= Seq::new(0, |i: int| (nd0 + p * h + 0 - 1 - i) as u8) + o.ts().hand(p as int));
            }
            while k < hand_size
                invariant
                    self.wf(),
                    self.sd() == o.sd(),
                    n == o.n(),
                    p < n,
                    self.ts().active_player_index == p,
                    k <= hand_size,
                    h == hand_size,
                    nd0 == o.next_draw(),
                    dealt == p * hand_size + k,
                    p * hand_size + hand_size <= n * hand_size,
                    n * hand_size <= o.ts().deck_size,
                    o.next_draw() + o.ts().deck_size <= deck.len(),
                    forall|q: int| 0 <= q < deck.len() ==> #[trigger] deck@[q] < o.sd().variant.total_ids(),
                    self.ts().deck_size == o.ts().deck_size - dealt,
                    self.next_draw() == o.next_draw() + dealt,
                    self.ts()@ == (TableView {
                        hands: self.ts()@.hands,
                        deck_size: self.ts()@.deck_size,
                        active_player_index: self.ts()@.active_player_index,
                        ..o.ts()@
                    }),
                    forall|q: int| 0 <= q < p ==> #[trigger] self.ts().hand(q) == dealt_hand(nd0, h, q) + o.ts().hand(q),
                    forall|q: int| p < q < n ==> #[trigger] self.ts().hand(q) == o.ts().hand(q),
                    self.ts().hand(p as int) == Seq::new(k as nat, |i: int| (nd0 + p * h + k - 1 - i) as u8) + o.ts().hand(p as int),
                    self.views() == dealt_views(o.views(), deck@, nd0, h, n as int, dealt as int),
                    self.phantoms() == o.phantoms(),
                    self.hist() == o.hist(),
                    self.next_id() == o.next_id(),
                decreases hand_size - k,
            {
                proof {
                    self.lemma_wf();
                }
                let ghost before = *self;
                let idx = self.next_deck_index;
                self.update_with_draw_action_of_specific_card(p, idx, deck[idx as usize]);
                self.next_deck_index = idx + 1;
                proof {
                    vstd::arithmetic::div_mod::lemma_fundamental_div_mod_converse(dealt as int, h, p as int, k as int);
                    assert(dealt_views(o.views(), deck@, nd0, h, n as int, dealt + 1) == seen_draw(
                        dealt_views(o.views(), deck@, nd0, h, n as int, dealt as int),
                        p as int,
                        nd0 + dealt,
                        deck@[nd0 + dealt] as int,
                        n as int,
                    ));
                    assert forall|q: int| 0 <= q < n && q != p implies #[trigger] self.ts().hand(q) == before.ts().hand(q) by {
                        assert(self.ts()@.hands[q] == before.ts()@.hands[q]);
                    }
                    assert(self.ts()@.hands[p as int] == self.ts().hand(p as int));
                    assert(self.ts().hand(p as int) =~= Seq::new((k + 1) as nat, |i: int| (nd0 + p * h + (k + 1) - 1 - i) as u8) + o.ts().hand(p as int));
                }
                k += 1;
                dealt += 1;
            }
            proof {
                assert(self.ts().hand(p as int) =~= dealt_hand(nd0, h, p as int) + o.ts().hand(p as int));
            }
            p += 1;
        }
        let ghost before = *self;
        self.table_state.active_player_index = 0;
        proof {
            assert(self.ts().score_spec() == o.ts().score_spec());
            assert forall|q: int| 0 <= q < n implies #[trigger] self.ts().hand(q) == dealt_hand(nd0, h, q) + o.ts().hand(q) by {
                assert(self.table_state.hands@[q] == before.table_state.hands@[q]);
                assert(before.ts().hand(q) == dealt_hand(nd0, h, q) + o.ts().hand(q));
            }
        }
    }

    /// Every player but `player_index` sees the card it drew at deck position
    /// `card_deck_index`, of identity `card_id`; the board is unchanged.
    pub fn reveal_drawn(&mut self, player_index: usize, card_deck_index: CardDeckIndex, card_id: VariantCardId)
        requires
            old(self).wf(),
            player_index < old(self).n(),
            card_deck_index < MAX_CARDS_IN_DECK,
            card_id < old(self).sd().variant.total_ids(),
        ensures
            final(self).wf(),
            final(self).ts() == old(self).ts(),
            final(self).views() == seen_draw(old(self).views(), player_index as int, card_deck_index as int, card_id as int, old(self).n()),
            final(self).sd() == old(self).sd(),
            final(self).next_draw() == old(self).next_draw(),
            final(self).hist() == old(self).hist(),
            final(self).next_id() == old(self).next_id(),
            final(self).phantoms() == old(self).phantoms(),
    {
        proof {
            self.lemma_wf();
        }
        self.team_knowledge.update_with_card_drawn(player_index, card_deck_index, card_id);
        assert(self.views() =~= seen_draw(old(self).views(), player_index as int, card_deck_index as int, card_id as int, old(self).n()));
    }

    /// The deck position the next synthesized draw takes.
    pub fn next_deck_position(&self) -> (r: u8)
        ensures
            r == self.next_draw(),
    {
        self.next_deck_index
    }

    /// The active player draws `card_deck_index`, whose identity `card_id` every player
    /// but `player_index` (the drawer) now sees.
    pub fn update_with_draw_action_of_specific_card(&mut self, player_index: usize, card_deck_index: CardDeckIndex, card_id: VariantCardId)
        requires
            old(self).wf(),
            player_index < old(self).n(),
            card_deck_index < MAX_CARDS_IN_DECK,
            card_id < old(self).sd().variant.total_ids(),
        ensures
            final(self).wf(),
            final(self).ts()@ == old(self).ts()@.drawn(card_deck_index),
            final(self).views() == seen_draw(old(self).views(), player_index as int, card_deck_index as int, card_id as int, old(self).n()),
            final(self).sd() == old(self).sd(),
            final(self).next_draw() == old(self).next_draw(),
            final(self).hist() == old(self).hist(),
            final(self).next_id() == old(self).next_id(),
            final(self).phantoms() == old(self).phantoms(),
    {
        proof {
            self.lemma_wf();
        }
        self.table_state.update_with_draw_action(&self.static_data, card_deck_index);
        self.team_knowledge.update_with_card_drawn(player_index, card_deck_index, card_id);
        assert(self.views() =~= seen_draw(old(self).views(), player_index as int, card_deck_index as int, card_id as int, old(self).n()));
    }

    /// The active player draws `card_deck_index` unseen; only the own-hand record of
    /// `player_index` changes.
    pub fn update_with_draw_action(&mut self, player_index: usize, card_deck_index: CardDeckIndex)
        requires
            old(self).wf(),
            player_index < old(self).n(),
            card_deck_index < MAX_CARDS_IN_DECK,
        ensures
            final(self).wf(),
            final(self).ts()@ == old(self).ts()@.drawn(card_deck_index),
            final(self).views() == old(self).views().update(
                player_index as int,
                with_own(old(self).team().view_of(player_index as int), card_deck_index as int),
            ),
            final(self).sd() == old(self).sd(),
            final(self).next_draw() == old(self).next_draw(),
            final(self).hist() == old(self).hist(),
            final(self).next_id() == old(self).next_id(),
            final(self).phantoms() == old(self).phantoms(),
    {
        proof {
            self.lemma_wf();
        }
        self.table_state.update_with_draw_action(&self.static_data, card_deck_index);
        let own = self.team_knowledge.player(player_index).own_hand;
        self.team_knowledge.set_own_hand(player_index, own | bit(card_deck_index));
        assert(self.views() =~= old(self).views().update(
            player_index as int,
            with_own(old(self).team().view_of(player_index as int), card_deck_index as int),
        ));
    }

    /// The active player plays `card_deck_index`, of identity `card_id`. When the play
    /// advances a stack, touched cards are reinterpreted under good touch.
    pub fn update_with_play_action_of_specific_card(&mut self, card_deck_index: CardDeckIndex, card_id: VariantCardId)
        requires
            old(self).wf(),
            card_deck_index < MAX_CARDS_IN_DECK,
            card_id < old(self).sd().variant.total_ids(),
        ensures
            final(self).wf(),
            final(self).ts()@ == old(self).ts()@.played(card_deck_index, card_id),
            ({
                let p = old(self).ts().active_player_index as int;
                let v1 = old(self).views().update(p, without_own(old(self).team().view_of(p), card_deck_index as int));
                final(self).views() == if old(self).ts().is_playable_id(&old(self).sd().variant, card_id as int) {
                    regood_team(v1, &final(self).ts(), &old(self).sd())
                } else {
                    v1
                }
            }),
            final(self).sd() == old(self).sd(),
            final(self).next_draw() == old(self).next_draw(),
            final(self).hist() == old(self).hist(),
            final(self).next_id() == old(self).next_id(),
            final(self).phantoms() == old(self).phantoms(),
    {
        proof {
            self.lemma_wf();
        }
        let player_index = self.table_state.active_player_index();
        let suit = (card_id / 5) as usize;
        let pre = self.table_state.stack_size(&self.static_data, suit);
        self.table_state.update_with_play_action_of_specific_card(&self.static_data, card_deck_index, card_id);
        let post = self.table_state.stack_size(&self.static_data, suit);
        self.remove_card_from_own_hand(player_index, card_deck_index);
        if post > pre {
            self.reapply_good_touch_after_state_change();
        }
    }

    /// The active player plays `card_deck_index` of unknown identity.
    pub fn update_with_play_action(&mut self, card_deck_index: CardDeckIndex)
        requires
            old(self).wf(),
            card_deck_index < MAX_CARDS_IN_DECK,
        ensures
            final(self).wf(),
            final(self).ts()@ == old(self).ts()@.without(card_deck_index),
            final(self).views() == old(self).views().update(
                old(self).ts().active_player_index as int,
                without_own(old(self).team().view_of(old(self).ts().active_player_index as int), card_deck_index as int),
            ),
            final(self).sd() == old(self).sd(),
            final(self).next_draw() == old(self).next_draw(),
            final(self).hist() == old(self).hist(),
            final(self).next_id() == old(self).next_id(),
            final(self).phantoms() == old(self).phantoms(),
    {
        proof {
            self.lemma_wf();
        }
        let player_index = self.table_state.active_player_index();
        self.table_state.update_with_play_action(&self.static_data, card_deck_index);
        self.remove_card_from_own_hand(player_index, card_deck_index);
    }

    /// The active player discards `card_deck_index`, of identity `card_id`.
    pub fn update_with_discard_action_of_specific_card(&mut self, card_deck_index: CardDeckIndex, card_id: VariantCardId)
        requires
            old(self).wf(),
            card_deck_index < MAX_CARDS_IN_DECK,
            card_id < old(self).sd().variant.total_ids(),
        ensures
            final(self).wf(),
            final(self).ts()@ == old(self).ts()@.discarded_as(card_deck_index, card_id),
            final(self).views() == old(self).views().update(
                old(self).ts().active_player_index as int,
                without_own(old(self).team().view_of(old(self).ts().active_player_index as int), card_deck_index as int),
            ),
            final(self).sd() == old(self).sd(),
            final(self).next_draw() == old(self).next_draw(),
            final(self).hist() == old(self).hist(),
            final(self).next_id() == old(self).next_id(),
            final(self).phantoms() == old(self).phantoms(),
    {
        proof {
            self.lemma_wf();
        }
        let player_index = self.table_state.active_player_index();
        self.table_state.update_with_discard_action_of_specific_card(&self.static_data, card_deck_index, card_id);
        self.remove_card_from_own_hand(player_index, card_deck_index);
    }

    /// The active player discards `card_deck_index` of unknown identity.
    pub fn update_with_discard_action(&mut self, card_deck_index: CardDeckIndex)
        requires
            old(self).wf(),
            card_deck_index < MAX_CARDS_IN_DECK,
        ensures
            final(self).wf(),
            final(self).ts()@ == old(self).ts()@.discarded_unknown(card_deck_index),
            final(self).views() == old(self).views().update(
                old(self).ts().active_player_index as int,
                without_own(old(self).team().view_of(old(self).ts().active_player_index as int), card_deck_index as int),
            ),
            final(self).sd() == old(self).sd(),
            final(self).next_draw() == old(self).next_draw(),
            final(self).hist() == old(self).hist(),
            final(self).next_id() == old(self).next_id(),
            final(self).phantoms() == old(self).phantoms(),
    {
        proof {
            self.lemma_wf();
        }
        let player_index = self.table_state.active_player_index();
        self.table_state.update_with_discard_action(&self.static_data, card_deck_index);
        self.remove_card_from_own_hand(player_index, card_deck_index);
    }

    /// A clue on the table only: no convention knowledge is derived from it.
    pub fn update_with_clue_action(&mut self, touched_card_deck_indexes: TouchedCards, clue: Clue, receiver_player_index: usize)
        requires
            old(self).wf(),
            clue_args_wf(receiver_player_index, touched_card_deck_indexes@, &old(self).sd()),
        ensures
            final(self).wf(),
            final(self).ts()@ == old(self).ts()@.clued(
                touched_card_deck_indexes@,
                receiver_player_index as int,
                old(self).sd().variant.clue_mask(clue.clue_type, clue.clue_value as int),
            ),
            final(self).team() == old(self).team(),
            final(self).sd() == old(self).sd(),
            final(self).next_draw() == old(self).next_draw(),
            final(self).hist() == old(self).hist(),
            final(self).next_id() == old(self).next_id(),
            final(self).phantoms() == old(self).phantoms(),
    {
        self.table_state.update_with_clue_action(&self.static_data, touched_card_deck_indexes.as_slice(), &clue, receiver_player_index);
    }

    /// The turn passes to the next player.
    pub fn advance_turn(&mut self)
        requires
            old(self).wf(),
            old(self).ts().current_turn < usize::MAX,
        ensures
            final(self).wf(),
            final(self).ts()@ == old(self).ts()@.advanced(old(self).n()),
            final(self).team() == old(self).team(),
            final(self).sd() == old(self).sd(),
            final(self).next_draw() == old(self).next_draw(),
            final(self).hist() == old(self).hist(),
            final(self).next_id() == old(self).next_id(),
            final(self).phantoms() == old(self).phantoms(),
    {
        self.table_state.advance_turn(&self.static_data);
    }

    /// Score counting plays not attributed to a stack.
    #[must_use]
    pub fn score(&self, _variant: &Variant) -> (r: u8)
        requires
            self.wf(),
            self.ts().score_spec() + self.phantoms() <= u8::MAX,
        ensures
            r == self.ts().score_spec() + self.phantoms(),
    {
        self.table_state.score(&self.static_data) + self.phantom_plays
    }

    /// Pace (score + cards left in the deck + players - maximum score), counting plays not
    /// attributed to a stack.
    #[must_use]
    pub fn pace(&self) -> (r: i32)
        requires
            self.wf(),
        ensures
            r == self.ts().score_spec() + self.ts().deck_size + self.n() - self.sd().variant.total_ids() + self.phantoms(),
    {
        proof {
            self.lemma_wf();
            crate::game::table_state::lemma_sum_prefix_bound(self.table_state.playing_stacks@, self.table_state.playing_stacks@.len() as int, 5);
        }
        let score = self.table_state.score(&self.static_data) as i32;
        let max_score = (self.static_data.variant.number_of_suits as i32) * 5;
        score + (self.table_state.deck_size as i32) + (self.static_data.number_of_players as i32) - max_score
            + (self.phantom_plays as i32)
    }

    /// The game is over: three strikes, or the maximum score is reached (counting plays not
    /// attributed to a stack).
    #[must_use]
    pub fn is_terminal(&self) -> (r: bool)
        requires
            self.wf(),
        ensures
            r == (self.ts().strike_tokens >= MAX_STRIKES || self.ts().score_spec() + self.phantoms() >= self.sd().variant.total_ids()),
    {
        let score = self.table_state.score(&self.static_data) as u16 + self.phantom_plays as u16;
        let max_score = (self.static_data.variant.number_of_suits as u16) * 5;
        self.table_state.strike_tokens >= MAX_STRIKES || score >= max_score
    }

    /// The board and the knowledge as they are now.
    #[must_use]
    pub fn snapshot(&self) -> (r: GameStateSnapshot)
        requires
            self.wf(),
        ensures
            r.wf(&self.sd()),
            r.table_state@ == self.ts()@,
            r.team_knowledge.views() == self.views(),
    {
        proof {
            self.lemma_wf();
        }
        let r = GameStateSnapshot::new(self.table_state.duplicate(), self.team_knowledge.duplicate());
        assert(r.team_knowledge.views() =~= self.views());
        r
    }

    /// Record the board and the knowledge before the action of this turn.
    pub fn record_snapshot(&mut self)
        requires
            old(self).wf(),
        ensures
            final(self).wf(),
            final(self).hist().len() == old(self).hist().len() + 1,
            final(self).hist().drop_last() == old(self).hist(),
            final(self).hist().last().table_state@ == old(self).ts()@,
            final(self).hist().last().team_knowledge.views() == old(self).views(),
            final(self).ts() == old(self).ts(),
            final(self).team() == old(self).team(),
            final(self).sd() == old(self).sd(),
            final(self).next_draw() == old(self).next_draw(),
            final(self).next_id() == old(self).next_id(),
            final(self).phantoms() == old(self).phantoms(),
    {
        let s = self.snapshot();
        self.history.push(s);
        assert(self.hist().drop_last() =~= old(self).hist());
    }

    /// The POV record of `player_index` at the start of `turn`: `None` when no snapshot was
    /// recorded for `turn` or `player_index` is not seated.
    #[must_use]
    pub fn pov_at_turn(&self, turn: usize, player_index: usize) -> (r: Option<PlayerPOVSnapshot>)
        requires
            self.wf(),
        ensures
            r is None <==> (turn >= self.hist().len() || player_index >= self.n()),
            r matches Some(s) ==> s.player() == player_index && s.recorded().same_as(&self.hist()[turn as int])
                && s.recorded().wf(&self.sd()),
    {
        proof {
            self.lemma_wf();
        }
        if turn >= self.history.len() {
            return None;
        }
        let snapshot = self.history[turn].duplicate();
        if player_index >= self.static_data.num_players() {
            return None;
        }
        Some(PlayerPOVSnapshot::new(player_index, snapshot))
    }

    /// The game as `player_index` sees it, through the recorded turn history.
    pub closed spec fn play_hyps(&self, techs: Seq<ConventionTech>, card_deck_index: CardDeckIndex) -> Seq<(u8, HypothesisView)> {
        let p = self.table_state.active_player_index;
        collect_from(
            techs,
            0,
            None,
            None,
            GameActionView::Play { player_index: p, card_deck_index, turn: self.table_state.current_turn },
            self.history@,
            self.pov_spec(p),
        )
    }

    /// The active player plays `card_deck_index`. Every other player interprets the play
    /// through `convention_set`, from the actor's POV, and stores the part of the
    /// interpretation on their own hand. The played identity is resolved by
    /// [`play_identity`]; when it stays unknown but the actor knew the card playable, the
    /// play counts as a phantom play. The actor then refills from the deck, and a play that
    /// advanced a stack triggers good-touch reinterpretation. Returns the resolved identity.
    fn apply_play(&mut self, card_deck_index: CardDeckIndex, convention_set: &HGroupConventionSet, truth: &LightweightPlayerPOV) -> (r: Option<VariantCardId>)
        requires
            old(self).wf(),
            card_deck_index < MAX_CARDS_IN_DECK,
            truth.wf(),
        ensures
            final(self).wf(),
            ({
                let po = play_outcome(*old(self), final(self).ts(), card_deck_index, convention_set.tech_list(), truth.card_id(card_deck_index as int));
                &&& r == play_identity(
                    old(self).team().view_of(old(self).ts().active_player_index as int),
                    card_deck_index as int,
                    &old(self).ts(),
                    &old(self).sd(),
                    truth.card_id(card_deck_index as int),
                )
                &&& final(self).ts()@ == po.0
                &&& final(self).next_draw() == po.1
                &&& final(self).phantoms() == po.2
                &&& final(self).views() == po.3
                &&& final(self).next_id() == po.4
            }),
            final(self).sd() == old(self).sd(),
            final(self).hist() == old(self).hist(),
            final(self).team().spec_num_players() == old(self).team().spec_num_players(),
    {
        proof {
            self.lemma_wf();
        }
        let p = self.table_state.active_player_index();
        let turn_counter = self.table_state.current_turn;
        let action = GameAction::Play { player_index: p, card_deck_index, turn: turn_counter };
        let actor_hypotheses = {
            let pov = self.player_pov(p);
            collect_hypotheses(convention_set.techs(), &action, &self.history, &pov)
        };
        let ghost hv = hyps_view(actor_hypotheses@);
        assert(hv == old(self).play_hyps(convention_set.tech_list(), card_deck_index));
        let ghost kv = old(self).team().view_of(p as int);
        let (known_id, has_play_signal) = {
            let knowledge = self.team_knowledge.player(p);
            let has_play_signal = knowledge.has_play_signal(card_deck_index);
            let combined = knowledge.combined_possible_identities(card_deck_index, &self.table_state, &self.static_data);
            let empathy_id = match combined.known_card_id() {
                Some(i) => Some(i),
                None => if has_play_signal {
                    let playable = self.table_state.playable_cards(&self.static_data);
                    match combined.narrow(playable) {
                        Some(e) => e.known_card_id(),
                        None => None,
                    }
                } else {
                    None
                },
            };
            let truth_id = truth.card_identity(card_deck_index);
            let id = match truth_id {
                Some(t) => if combined.contains(t) { empathy_id } else { Some(t) },
                None => empathy_id,
            };
            let id = match id {
                Some(i) => if i < self.static_data.variant.total_id_count() { Some(i) } else { None },
                None => None,
            };
            (id, has_play_signal)
        };
        let ghost o = *old(self);
        let drew = self.table_state.deck_size > 0;
        let stack_advanced;
        if let Some(card_id) = known_id {
            let suit = (card_id / 5) as usize;
            let pre = self.table_state.stack_size(&self.static_data, suit);
            self.table_state.update_with_play_action_of_specific_card(&self.static_data, card_deck_index, card_id);
            let post = self.table_state.stack_size(&self.static_data, suit);
            stack_advanced = post > pre;
        } else {
            if self.is_known_playable_play(p, card_deck_index, has_play_signal) {
                self.phantom_plays = self.phantom_plays.saturating_add(1);
            }
            self.table_state.update_with_play_action(&self.static_data, card_deck_index);
            stack_advanced = false;
        }
        self.remove_card_from_own_hand(p, card_deck_index);
        self.update_with_unkown_card_draw(p);
        assert(self.views() =~= hand_cycled(o.views(), p as int, card_deck_index as int, refill_pos(o.ts().deck_size, o.next_draw())));
        if stack_advanced {
            self.reapply_good_touch_after_state_change();
        }
        let ghost v3 = self.views();
        let ghost ts_mid = self.ts();
        let ghost nd = self.next_draw();
        let ghost ph = self.phantoms();
        proof {
            let id = play_identity(kv, card_deck_index as int, &o.ts(), &o.sd(), truth.card_id(card_deck_index as int));
            assert(known_id == id);
            assert(stack_advanced == (id matches Some(i) && o.ts().is_playable_id(&o.sd().variant, i as int)));
            assert(ts_mid@ == refilled(
                match id {
                    Some(i) => o.ts()@.played(card_deck_index, i),
                    None => o.ts()@.without(card_deck_index),
                },
                o.next_draw(),
            ));
        }
        let num_players = self.static_data.num_players();
        let cohort_id = self.next_hypothesis_id;
        if self.next_hypothesis_id < u32::MAX {
            self.next_hypothesis_id = self.next_hypothesis_id + 1;
        }
        let ghost total = spread_cohort(v3, 0, num_players as int, p as int, cohort_id, hv, self.next_id() as int, &o.sd().variant);
        let mut target: usize = 0;
        while target < num_players
            invariant
                self.wf(),
                num_players == self.n(),
                self.sd() == o.sd(),
                self.hist() == o.hist(),
                self.team().spec_num_players() == o.team().spec_num_players(),
                target <= num_players,
                p < num_players,
                hv == hyps_view(actor_hypotheses@),
                forall|k: int| 0 <= k < actor_hypotheses@.len() ==> updates_wf((#[trigger] actor_hypotheses@[k]).1@.immediate),
                spread_cohort(self.views(), target as int, num_players as int, p as int, cohort_id, hv, self.next_id() as int, &o.sd().variant) == total,
                self.ts() == ts_mid,
                self.next_draw() == nd,
                self.phantoms() == ph,
            decreases num_players - target,
        {
            if target != p {
                self.store_own_cohort(target, cohort_id, &actor_hypotheses);
            }
            target += 1;
        }
        known_id
    }

    /// The active player discards `card_deck_index`, whose identity is that of
    /// [`discard_identity`] when known, and refills from the deck.
    fn apply_discard(&mut self, card_deck_index: CardDeckIndex, truth: &LightweightPlayerPOV)
        requires
            old(self).wf(),
            card_deck_index < MAX_CARDS_IN_DECK,
            truth.wf(),
        ensures
            final(self).wf(),
            ({
                let d = discard_outcome(*old(self), card_deck_index, truth.card_id(card_deck_index as int));
                &&& final(self).ts()@ == d.0
                &&& final(self).next_draw() == d.1
                &&& final(self).views() == d.2
            }),
            final(self).sd() == old(self).sd(),
            final(self).hist() == old(self).hist(),
            final(self).next_id() == old(self).next_id(),
            final(self).phantoms() == old(self).phantoms(),
            final(self).team().spec_num_players() == old(self).team().spec_num_players(),
    {
        proof {
            self.lemma_wf();
        }
        let p = self.table_state.active_player_index();
        let num_players = self.static_data.num_players();
        let ghost o = *old(self);
        let mut known_id = truth.card_identity(card_deck_index);
        if known_id.is_none() {
            let mut obs: usize = 0;
            let mut found = false;
            while obs < num_players
                invariant
                    self.wf(),
                    *self == o,
                    num_players == o.n(),
                    num_players <= MAX_PLAYERS_IN_GAME,
                    obs <= num_players,
                    card_deck_index < MAX_CARDS_IN_DECK,
                    found ==> known_id == spectator_id(o.views(), 0, num_players as int, p as int, card_deck_index as int, &o.ts(), &o.sd().variant),
                    !found ==> known_id is None && spectator_id(o.views(), obs as int, num_players as int, p as int, card_deck_index as int, &o.ts(), &o.sd().variant)
                        == spectator_id(o.views(), 0, num_players as int, p as int, card_deck_index as int, &o.ts(), &o.sd().variant),
                decreases num_players - obs,
            {
                if !found && obs != p {
                    let e = self.team_knowledge.player(obs).combined_possible_identities(card_deck_index, &self.table_state, &self.static_data);
                    if e.is_exactly_known() {
                        known_id = e.known_card_id();
                        found = true;
                    }
                }
                obs += 1;
            }
        }
        let known_id = match known_id {
            Some(i) => if i < self.static_data.variant.total_id_count() { Some(i) } else { None },
            None => None,
        };
        assert(known_id == discard_identity(o.views(), p as int, card_deck_index as int, &o.ts(), &o.sd(), truth.card_id(card_deck_index as int)));
        if let Some(card_id) = known_id {
            self.table_state.update_with_discard_action_of_specific_card(&self.static_data, card_deck_index, card_id);
        } else {
            self.table_state.update_with_discard_action(&self.static_data, card_deck_index);
        }
        self.remove_card_from_own_hand(p, card_deck_index);
        self.update_with_unkown_card_draw(p);
        assert(self.views() =~= hand_cycled(o.views(), p as int, card_deck_index as int, refill_pos(o.ts().deck_size, o.next_draw())));
    }

    /// `target` stores `hypotheses` as cohort `cohort_id`, when the hypothesis ids it needs
    /// are still free.
    fn store_cohort(&mut self, target: usize, cohort_id: HypothesisId, hypotheses: Vec<(u8, Hypothesis)>)
        requires
            old(self).wf(),
            target < old(self).n(),
            forall|k: int| 0 <= k < hypotheses@.len() ==> updates_wf((#[trigger] hypotheses@[k]).1@.immediate),
        ensures
            final(self).wf(),
            final(self).same_but_team_ids(old(self)),
            final(self).team().spec_num_players() == old(self).team().spec_num_players(),
            final(self).views() == old(self).views().update(
                target as int,
                stored(old(self).team().view_of(target as int), cohort_id, hyps_view(hypotheses@), old(self).next_id() as int, &old(self).sd().variant),
            ),
            final(self).next_id() == ids_stored(hyps_view(hypotheses@), old(self).next_id() as int),
    {
        proof {
            self.lemma_wf();
        }
        let ghost v0 = self.views();
        let room: u32 = u32::MAX - self.next_hypothesis_id;
        if hypotheses.len() <= room as usize {
            self.team_knowledge.apply_player_cohort(target, cohort_id, hypotheses, &mut self.next_hypothesis_id, &self.static_data.variant);
        }
        assert(self.views() =~= v0.update(
            target as int,
            stored(v0[target as int], cohort_id, hyps_view(hypotheses@), old(self).next_id() as int, &old(self).sd().variant),
        ));
    }

    /// A clue: the table records it; the receiver's knowledge takes the raw narrowing the
    /// clue states and the good-touch baseline; then the receiver and every other seat
    /// interpret it through `convention_set` (see [`clue_outcome`]).
    fn apply_clue(&mut self, action: &GameAction, convention_set: &HGroupConventionSet)
        requires
            old(self).wf(),
            action@ is Clue,
            action_args_wf(action@, &old(self).sd()),
            action@->Clue_turn < usize::MAX,
        ensures
            final(self).wf(),
            ({
                let a = action@;
                final(self).ts()@ == old(self).ts()@.clued(
                    a->Clue_touched,
                    a->Clue_player_index as int,
                    old(self).sd().variant.clue_mask(a->Clue_clue.clue_type, a->Clue_clue.clue_value as int),
                )
            }),
            clue_outcome(*old(self), final(self).ts(), final(self).views(), final(self).next_id() as int, action@, convention_set.tech_list()),
            forall|p: int, j: int, i: int|
                0 <= p < old(self).n() && 0 <= j < MAX_CARDS_IN_DECK ==> (#[trigger] in_mask(final(self).views()[p].base(j, &old(self).sd().variant), i)
                    ==> in_mask(old(self).views()[p].base(j, &old(self).sd().variant), i)),
            final(self).sd() == old(self).sd(),
            final(self).hist() == old(self).hist(),
            final(self).next_draw() == old(self).next_draw(),
            final(self).phantoms() == old(self).phantoms(),
            final(self).team().spec_num_players() == old(self).team().spec_num_players(),
    {
        proof {
            self.lemma_wf();
        }
        let ghost o = *old(self);
        let (receiver, touched, clue, turn) = match action {
            GameAction::Clue { player_index, touched_card_deck_indexes, clue, turn } => (*player_index, touched_card_deck_indexes.as_slice(), *clue, *turn),
            _ => {
                proof {
                    assert(false);
                }
                return;
            },
        };
        let giver = self.table_state.active_player_index();
        let pre_clue_table_state = self.table_state.duplicate();
        self.table_state.update_with_clue_action(&self.static_data, touched, &clue, receiver);
        let ghost ts = self.ts();
        let clue_mask = self.static_data.variant.empathy_for_clue(&clue);
        let hand_len = self.table_state.hands[receiver].len();
        let ghost hand = o.ts().hand(receiver as int);
        let ghost v = o.sd().variant;
        let mut k: usize = 0;
        while k < hand_len
            invariant
                self.wf(),
                self.ts() == ts,
                self.sd() == o.sd(),
                self.hist() == o.hist(),
                self.next_draw() == o.next_draw(),
                self.next_id() == o.next_id(),
                self.phantoms() == o.phantoms(),
                self.team().spec_num_players() == o.team().spec_num_players(),
                ts.hands == o.ts().hands,
                receiver < o.n(),
                o.n() <= MAX_PLAYERS_IN_GAME,
                hand == ts.hand(receiver as int),
                hand_len == hand.len(),
                k <= hand_len,
                v == o.sd().variant,
                clue_mask == v.clue_mask(clue.clue_type, clue.clue_value as int),
                self.views() == o.views().update(receiver as int, clue_narrowed_hand(o.team().view_of(receiver as int), hand.subrange(0, k as int), touched@, clue_mask, &v)),
            decreases hand_len - k,
        {
            let slot = self.table_state.hands[receiver][k];
            proof {
                let h = hand.subrange(0, k + 1);
                assert(h.drop_last() =~= hand.subrange(0, k as int));
                assert(h.last() == slot);
            }
            let ghost before = self.views();
            let ghost prev = clue_narrowed_hand(o.team().view_of(receiver as int), hand.subrange(0, k as int), touched@, clue_mask, &v);
            assert(before[receiver as int] == prev);
            assert(self.team().view_of(receiver as int) == prev);
            if slice_contains(touched, slot) {
                self.team_knowledge.narrow_player(receiver, slot, clue_mask, &self.static_data.variant);
                assert(self.team().view_of(receiver as int) == prev.narrow(slot as int, clue_mask, &v));
            } else {
                self.team_knowledge.exclude_player(receiver, slot, clue_mask, &self.static_data.variant);
                assert(self.team().view_of(receiver as int) == prev.narrow(slot as int, !clue_mask, &v));
            }
            assert(self.team().view_of(receiver as int) == clue_narrowed_hand(o.team().view_of(receiver as int), hand.subrange(0, k + 1), touched@, clue_mask, &v));
            assert forall|q: int| 0 <= q < MAX_PLAYERS_IN_GAME && q != receiver implies self.team().view_of(q) == o.team().view_of(q) by {
                assert(before[q] == o.views()[q]);
            }
            assert(self.views() =~= o.views().update(receiver as int, clue_narrowed_hand(o.team().view_of(receiver as int), hand.subrange(0, k + 1), touched@, clue_mask, &v)));
            k += 1;
        }
        assert(hand.subrange(0, hand_len as int) =~= hand);
        assert(self.views()[receiver as int] == clue_narrowed_hand(o.team().view_of(receiver as int), hand, touched@, clue_mask, &v));
        assert(self.team().view_of(receiver as int) == self.views()[receiver as int]);
        let still_needed = still_needed_cards_mask(&self.table_state, &self.static_data);
        let pairs = convention_set.clue_receiver_baseline(&clue, touched, receiver, &self.table_state, &self.static_data);
        let ghost kv1 = self.team().view_of(receiver as int);
        let mut j: usize = 0;
        while j < pairs.len()
            invariant
                self.wf(),
                self.ts() == ts,
                self.sd() == o.sd(),
                self.hist() == o.hist(),
                self.next_draw() == o.next_draw(),
                self.next_id() == o.next_id(),
                self.phantoms() == o.phantoms(),
                self.team().spec_num_players() == o.team().spec_num_players(),
                receiver < o.n(),
                o.n() <= MAX_PLAYERS_IN_GAME,
                j <= pairs@.len(),
                v == o.sd().variant,
                still_needed == still_needed_mask(&ts, &o.sd()),
                pairs@ == baseline_pairs(touched@, good_touch_baseline_spec(&clue, receiver, &ts, &o.sd())),
                forall|q: int| 0 <= q < touched@.len() ==> #[trigger] touched@[q] < MAX_CARDS_IN_DECK,
                self.views() == o.views().update(receiver as int, baseline_applied(kv1, pairs@.subrange(0, j as int), still_needed, &v)),
            decreases pairs.len() - j,
        {
            let (idx, mask) = pairs[j];
            proof {
                let h = pairs@.subrange(0, j + 1);
                assert(h.drop_last() =~= pairs@.subrange(0, j as int));
                assert(h.last() == (idx, mask));
                assert(idx < MAX_CARDS_IN_DECK);
            }
            let current = match self.team_knowledge.player(receiver).possible_identities(idx) {
                Some(m) => m.as_bits(),
                None => u64::MAX,
            };
            let ghost before = self.views();
            let ghost prev = baseline_applied(kv1, pairs@.subrange(0, j as int), still_needed, &v);
            assert(before[receiver as int] == prev);
            assert(current == current_bits(prev, idx as int));
            if current & still_needed != 0 {
                self.team_knowledge.narrow_player(receiver, idx, mask, &self.static_data.variant);
            }
            assert(self.team().view_of(receiver as int) == baseline_applied(kv1, pairs@.subrange(0, j + 1), still_needed, &v));
            assert forall|q: int| 0 <= q < MAX_PLAYERS_IN_GAME && q != receiver implies self.team().view_of(q) == o.team().view_of(q) by {
                assert(before[q] == o.views()[q]);
            }
            assert(self.views() =~= o.views().update(receiver as int, baseline_applied(kv1, pairs@.subrange(0, j + 1), still_needed, &v)));
            j += 1;
        }
        assert(pairs@.subrange(0, pairs@.len() as int) =~= pairs@);
        let ghost vm = self.views();
        proof {
            assert(kv1 == clue_narrowed_hand(o.team().view_of(receiver as int), hand, touched@, clue_mask, &v));
            assert(vm[receiver as int] == baseline_applied(kv1, pairs@, still_needed, &v));
            assert forall|q: int| 0 <= q < MAX_PLAYERS_IN_GAME && q != receiver implies vm[q] == o.views()[q] by {
                assert(vm[q] == o.views().update(receiver as int, baseline_applied(kv1, pairs@, still_needed, &v))[q]);
            }
        }
        assert(vm =~= clue_baseline_views(o, ts, touched@, clue, receiver));
        let ghost mid = self.team();
        let cohort_id = self.next_hypothesis_id;
        if self.next_hypothesis_id < u32::MAX {
            self.next_hypothesis_id = self.next_hypothesis_id + 1;
        }
        let num_players = self.static_data.num_players();
        let techs = convention_set.techs();
        let snapshot = GameStateSnapshot::new(pre_clue_table_state, self.team_knowledge.duplicate());
        let mut local_history: Vec<GameStateSnapshot> = Vec::new();
        let mut c: usize = 0;
        while c < turn
            invariant
                c <= turn,
                local_history@.len() == c,
                snapshot.wf(&o.sd()),
                snapshot.table_state@ == o.ts()@,
                snapshot.team_knowledge.views() == vm,
                snapshot.team_knowledge.wf(),
                forall|q: int| 0 <= q < local_history@.len() ==> {
                    &&& (#[trigger] local_history@[q]).wf(&o.sd())
                    &&& local_history@[q].table_state@ == o.ts()@
                    &&& local_history@[q].team_knowledge.views() == vm
                },
            decreases turn - c,
        {
            local_history.push(snapshot.duplicate());
            c += 1;
        }
        local_history.push(snapshot);
        let ghost lh = local_history@;
        let receiver_hypotheses = {
            let receiver_pov = self.player_pov(receiver);
            collect_hypotheses(techs, action, &local_history, &receiver_pov)
        };
        let ghost rh = hyps_view(receiver_hypotheses@);
        assert forall|k: int| 0 <= k < rh.len() implies updates_wf((#[trigger] rh[k]).1.immediate) by {
            assert(rh[k] == (receiver_hypotheses@[k].0, receiver_hypotheses@[k].1@));
        }
        self.store_cohort(receiver, cohort_id, receiver_hypotheses);
        let ghost team0 = self.team();
        let ghost id0 = self.next_id() as int;
        assert(team0.views() == vm.update(receiver as int, stored(vm[receiver as int], o.next_id(), rh, id_after(o.next_id()) as int, &o.sd().variant)));
        assert(id0 == ids_stored(rh, id_after(o.next_id()) as int));
        let ghost mut teams: Seq<TeamKnowledge> = seq![self.team()];
        let ghost mut ids: Seq<int> = seq![self.next_id() as int];
        let mut target: usize = 0;
        while target < num_players
            invariant
                self.wf(),
                self.ts() == ts,
                self.sd() == o.sd(),
                self.hist() == o.hist(),
                self.next_draw() == o.next_draw(),
                self.phantoms() == o.phantoms(),
                self.team().spec_num_players() == o.team().spec_num_players(),
                num_players == o.n(),
                receiver < num_players,
                giver == o.ts().active_player_index,
                giver == ts.active_player_index,
                target <= num_players,
                techs@ == convention_set.tech_list(),
                local_history@ == lh,
                history_wf(lh, &o.sd()),
                action_args_wf(action@, &o.sd()),
                action_recorded(action@, lh.len() as int),
                teams.len() == target + 1,
                ids.len() == target + 1,
                teams[0] == team0,
                ids[0] == id0,
                teams[target as int] == self.team(),
                ids[target as int] == self.next_id() as int,
                forall|i: int| 0 <= i < target ==> #[trigger] clue_step(teams, ids, i, receiver as int, giver as int, cohort_id, ts, lh, action@, techs@, o.sd()),
            decreases num_players - target,
        {
            let ghost t0 = self.team();
            if target != receiver {
                self.table_state.active_player_index = target;
                let raw = {
                    proof {
                        self.team_knowledge.lemma_wf();
                    }
                    let pov = LightweightPlayerPOV::new(target, self.team_knowledge.player(giver), &self.team_knowledge, &self.table_state, &self.static_data);
                    collect_hypotheses(techs, action, &local_history, &pov)
                };
                self.table_state.active_player_index = giver;
                assert forall|k: int| 0 <= k < hyps_view(raw@).len() implies updates_wf((#[trigger] hyps_view(raw@)[k]).1.immediate) by {
                    assert(hyps_view(raw@)[k] == (raw@[k].0, raw@[k].1@));
                }
                self.store_own_cohort(target, cohort_id, &raw);
            }
            proof {
                let nt = teams.push(self.team());
                let ni = ids.push(self.next_id() as int);
                assert forall|i: int| 0 <= i < target + 1 implies #[trigger] clue_step(nt, ni, i, receiver as int, giver as int, cohort_id, ts, lh, action@, techs@, o.sd()) by {
                    assert(nt[i] == teams[i]);
                    assert(ni[i] == ids[i]);
                    if i < target {
                        assert(nt[i + 1] == teams[i + 1]);
                        assert(ni[i + 1] == ids[i + 1]);
                        assert(clue_step(teams, ids, i, receiver as int, giver as int, cohort_id, ts, lh, action@, techs@, o.sd()));
                    }
                }
                teams = nt;
                ids = ni;
            }
            target += 1;
        }
        proof {
            assert(action@ == (GameActionView::Clue { player_index: receiver, touched: touched@, clue, turn }));
            assert(lh.len() == turn + 1);
            assert(vm == clue_baseline_views(o, ts, touched@, clue, receiver));
            assert(mid.views() == vm);
            assert(teams.len() == o.n() + 1);
            assert(self.views() == teams[o.n()].views());
            assert(forall|i: int| 0 <= i < o.n() ==> #[trigger] clue_step(teams, ids, i, receiver as int, o.ts().active_player_index as int, o.next_id(), ts, lh, action@, convention_set.tech_list(), o.sd()));
            let rh2 = collect_from(
                convention_set.tech_list(),
                0,
                None,
                None,
                action@,
                lh,
                LightweightPlayerPOV::pov_of(receiver, &mid.knowledge(receiver as int), &mid, &ts, &o.sd()),
            );
            assert(rh == rh2);
            assert(teams[0].views() == vm.update(receiver as int, stored(vm[receiver as int], o.next_id(), rh2, id_after(o.next_id()) as int, &o.sd().variant)));
            assert(ids[0] == ids_stored(rh2, id_after(o.next_id()) as int));
            assert forall|k: int| 0 <= k < lh.len() implies {
                &&& (#[trigger] lh[k]).wf(&o.sd())
                &&& lh[k].table_state@ == o.ts()@
                &&& lh[k].team_knowledge.views() == vm
            } by {
            }
        }
        assert(clue_witness(o, ts, self.views(), self.next_id() as int, action@, convention_set.tech_list(), lh, mid, teams, ids));
        proof {
            let v = o.sd().variant;
            assert forall|q: int, j: int, i: int|
                0 <= q < o.n() && 0 <= j < MAX_CARDS_IN_DECK && #[trigger] in_mask(self.views()[q].base(j, &v), i) implies in_mask(o.views()[q].base(j, &v), i) by {
                lemma_clue_interpretation_never_widens(o, ts, self.views(), self.next_id() as int, action@, convention_set.tech_list(), q, j, i);
            }
        }
    }

    /// Apply `action`, taken by the active player, and propagate convention knowledge; the
    /// turn does not advance.
    ///
    /// A play is resolved and interpreted as [`play_outcome`] says, a discard as
    /// [`discard_outcome`], a clue as [`clue_outcome`]; a draw only deals the card. Then,
    /// for every action but a draw, every seated player resolves the pending hypotheses the
    /// action triggers, with the played identity as `truth` sees it (else as the play
    /// resolved it). `truth` is the POV of whoever reasons about the action: the searcher
    /// during a search, the active player in a replay.
    pub fn apply(&mut self, action: &GameAction, convention_set: &HGroupConventionSet, truth: &LightweightPlayerPOV)
        requires
            old(self).wf(),
            truth.wf(),
            apply_args_wf(action@, &old(self).sd()),
        ensures
            apply_outcome(*old(self), *final(self), action@, convention_set.tech_list(), |i: int| truth.card_id(i)),
    {
        proof {
            self.lemma_wf();
        }
        let actor = self.table_state.active_player_index();
        let ghost o = *old(self);
        let played_identity: Option<VariantCardId> = match action {
            GameAction::Play { card_deck_index, .. } => {
                let known = self.apply_play(*card_deck_index, convention_set, truth);
                match truth.card_identity(*card_deck_index) {
                    Some(t) => Some(t),
                    None => known,
                }
            },
            GameAction::Discard { card_deck_index, .. } => {
                self.apply_discard(*card_deck_index, truth);
                None
            },
            GameAction::Clue { .. } => {
                self.apply_clue(action, convention_set);
                None
            },
            GameAction::Draw { card_deck_index, player_index } => {
                self.update_with_draw_action(*player_index, *card_deck_index);
                return;
            },
        };
        let ghost vs = self.views();
        proof {
            self.lemma_wf();
            self.team().lemma_wf();
            assert forall|q: int| 0 <= q < MAX_PLAYERS_IN_GAME implies #[trigger] vs[q].inferred.len() == MAX_CARDS_IN_DECK && stored_wf(vs[q].hypotheses) by {
                assert(self.team().knowledge(q).wf());
            }
        }
        let ghost ts1 = self.ts();
        let ghost nd1 = self.next_draw();
        let ghost ph1 = self.phantoms();
        let ghost id1 = self.next_id();
        let num_players = self.static_data.num_players();
        let mut p: usize = 0;
        while p < num_players
            invariant
                self.wf(),
                self.ts() == ts1,
                self.next_draw() == nd1,
                self.phantoms() == ph1,
                self.next_id() == id1,
                num_players == o.n(),
                num_players <= MAX_PLAYERS_IN_GAME,
                p <= num_players,
                self.sd() == o.sd(),
                self.hist() == o.hist(),
                self.team().spec_num_players() == o.team().spec_num_players(),
                vs.len() == MAX_PLAYERS_IN_GAME,
                self.views() == Seq::new(
                    MAX_PLAYERS_IN_GAME as nat,
                    |q: int| if q < p { resolved(vs[q], actor, action@, played_identity, &o.sd().variant) } else { vs[q] },
                ),
            decreases num_players - p,
        {
            let ghost before = self.views();
            self.team_knowledge.resolve_player_pending(p, actor, action, played_identity, &self.static_data.variant);
            assert(before[p as int] == vs[p as int]);
            assert(self.team().view_of(p as int) == resolved(vs[p as int], actor, action@, played_identity, &o.sd().variant));
            let ghost target = Seq::new(
                MAX_PLAYERS_IN_GAME as nat,
                |q: int| if q < p + 1 { resolved(vs[q], actor, action@, played_identity, &o.sd().variant) } else { vs[q] },
            );
            assert forall|q: int| 0 <= q < MAX_PLAYERS_IN_GAME implies self.views()[q] == target[q] by {
                if q != p {
                    assert(self.team().view_of(q) == before[q]);
                }
            }
            assert(self.views() =~= Seq::new(
                MAX_PLAYERS_IN_GAME as nat,
                |q: int| if q < p + 1 { resolved(vs[q], actor, action@, played_identity, &o.sd().variant) } else { vs[q] },
            ));
            p += 1;
        }
        assert(self.views() =~= resolved_team(vs, o.n(), actor, action@, played_identity, &o.sd().variant));
        if let GameAction::Play { card_deck_index, .. } = action {
            proof {
                let techs = convention_set.tech_list();
                let t = truth.card_id(*card_deck_index as int);
                lemma_play_adds_at_most_one_point(o, self.ts(), *card_deck_index, techs, t);
                if o.ts().deck_size == 0 || o.next_draw() != *card_deck_index {
                    lemma_play_removes_the_card(o, self.ts(), *card_deck_index, techs, t);
                    let a = actor as int;
                    assert(self.ts()@.hands[a] == self.ts().hand(a));
                    crate::engine::knowledge::player_knowledge::lemma_bake_confirmed_keeps(
                        vs[a],
                        vs[a].hypotheses,
                        vs[a].hypotheses.len() as int,
                        actor,
                        action@,
                        played_identity,
                        &o.sd().variant,
                    );
                }
            }
        }
        if let GameAction::Clue { .. } = action {
            assert(clue_outcome(o, self.ts(), vs, self.next_id() as int, action@, convention_set.tech_list()));
            let ghost v = o.sd().variant;
            assert forall|q: int, j: int, i: int|
                0 <= q < o.n() && 0 <= j < MAX_CARDS_IN_DECK && #[trigger] in_mask(self.views()[q].base(j, &v), i) implies in_mask(o.views()[q].base(j, &v), i) by {
                lemma_clue_interpretation_never_widens(o, self.ts(), vs, self.next_id() as int, action@, convention_set.tech_list(), q, j, i);
                assert(vs[q].inferred.len() == MAX_CARDS_IN_DECK);
                crate::engine::knowledge::player_knowledge::lemma_resolution_never_widens(vs[q], actor, action@, played_identity, &v, j, i);
            }
        }
    }

    /// The active player knows `card_deck_index` is playable without knowing its identity.
    pub(crate) fn is_known_playable_play(&self, player_index: usize, card_deck_index: CardDeckIndex, has_play_signal: bool) -> (r: bool)
        requires
            self.wf(),
            player_index < self.n(),
            card_deck_index < MAX_CARDS_IN_DECK,
            has_play_signal == self.team().view_of(player_index as int).play_signal(card_deck_index as int),
        ensures
            r == known_playable(self.team().view_of(player_index as int), card_deck_index as int, &self.ts(), &self.sd()),
    {
        proof {
            self.lemma_wf();
        }
        let knowledge = self.team_knowledge.player(player_index);
        let bits = knowledge.combined_possible_identities(card_deck_index, &self.table_state, &self.static_data).as_bits();
        if bits == 0 {
            return false;
        }
        let playable = self.table_state.playable_cards(&self.static_data);
        if has_play_signal {
            (bits & playable) != 0
        } else {
            (bits & !playable) == 0
        }
    }

    #[must_use]
    pub fn table_state(&self) -> (r: &TableState)
        ensures
            *r == self.ts(),
    {
        &self.table_state
    }

    #[must_use]
    pub fn static_data(&self) -> (r: &StaticGameData)
        ensures
            *r == self.sd(),
    {
        &self.static_data
    }

    #[must_use]
    pub fn team_knowledge(&self) -> (r: &TeamKnowledge)
        ensures
            *r == self.team(),
    {
        &self.team_knowledge
    }

    /// Successful plays not attributed to a stack (engine only; zero outside search).
    #[must_use]
    pub fn phantom_plays(&self) -> (r: u8)
        ensures
            r == self.phantoms(),
    {
        self.phantom_plays
    }

    /// Number of recorded snapshots.
    #[must_use]
    pub fn history_len(&self) -> (r: usize)
        ensures
            r == self.hist().len(),
    {
        self.history.len()
    }
}

/// The hypotheses of a non-empty-views sequence are all non-empty.
proof fn lemma_non_empty_views(s: Seq<HypothesisView>, k: int)
    requires
        0 <= k < non_empty_views(s).len(),
    ensures
        !non_empty_views(s)[k].is_empty(),
    decreases s.len(),
{
    if s.len() > 0 {
        let prev = non_empty_views(s.drop_last());
        if !s.last().is_empty() && k == prev.len() {
        } else {
            lemma_non_empty_views(s.drop_last(), k);
        }
    }
}

/// Collected interpretations come in at most two tiers (0, the primary priority, and 1,
/// the fallback), and none of them is empty.
pub proof fn lemma_collected_tiers(
    techs: Seq<ConventionTech>,
    i: int,
    primary: Option<u8>,
    fallback: Option<u8>,
    a: GameActionView,
    history: Seq<GameStateSnapshot>,
    obs: LightweightPlayerPOV,
    k: int,
)
    requires
        0 <= k < collect_from(techs, i, primary, fallback, a, history, obs).len(),
    ensures
        collect_from(techs, i, primary, fallback, a, history, obs)[k].0 <= 1,
        !collect_from(techs, i, primary, fallback, a, history, obs)[k].1.is_empty(),
    decreases techs.len() - i,
{
    if 0 <= i < techs.len() {
        let t = techs[i];
        let pr = t.priority();
        if fallback matches Some(fp) && pr > fp {
        } else if !t.explains(a, history, obs) {
            lemma_collected_tiers(techs, i + 1, primary, fallback, a, history, obs, k);
        } else {
            let ne = non_empty_views(t.interpretations(a, history, obs));
            if ne.len() == 0 {
                lemma_collected_tiers(techs, i + 1, primary, fallback, a, history, obs, k);
            } else {
                let (tier, np, nf) = match primary {
                    None => (0u8, Some(pr), fallback),
                    Some(pp) => if pr == pp {
                        (0u8, primary, fallback)
                    } else {
                        (1u8, primary, if fallback is None { Some(pr) } else { fallback })
                    },
                };
                assert(collect_from(techs, i, primary, fallback, a, history, obs) == tagged(ne, tier) + collect_from(techs, i + 1, np, nf, a, history, obs));
                if k < ne.len() {
                    lemma_non_empty_views(t.interpretations(a, history, obs), k);
                } else {
                    lemma_collected_tiers(techs, i + 1, np, nf, a, history, obs, k - ne.len());
                }
            }
        }
    }
}

/// Narrowing a hand's cards never adds an identity to any card.
proof fn lemma_clue_hand_never_widens(kv: KnowledgeView, hand: Seq<CardDeckIndex>, touched: Seq<CardDeckIndex>, mask: u64, v: &Variant, j: int, i: int)
    requires
        kv.inferred.len() == MAX_CARDS_IN_DECK,
        0 <= j < MAX_CARDS_IN_DECK,
        forall|q: int| 0 <= q < hand.len() ==> #[trigger] hand[q] < MAX_CARDS_IN_DECK,
    ensures
        in_mask(clue_narrowed_hand(kv, hand, touched, mask, v).base(j, v), i) ==> in_mask(kv.base(j, v), i),
        kv.base(j, v) != 0 ==> clue_narrowed_hand(kv, hand, touched, mask, v).base(j, v) != 0,
        clue_narrowed_hand(kv, hand, touched, mask, v).inferred.len() == MAX_CARDS_IN_DECK,
    decreases hand.len(),
{
    if hand.len() > 0 {
        let t = hand.drop_last();
        lemma_clue_hand_never_widens(kv, t, touched, mask, v, j, i);
        let prev = clue_narrowed_hand(kv, t, touched, mask, v);
        assert(hand.last() == hand[hand.len() - 1]);
        crate::engine::knowledge::player_knowledge::lemma_narrow_never_widens(prev, hand.last() as int, mask, v, j, i);
        crate::engine::knowledge::player_knowledge::lemma_narrow_never_widens(prev, hand.last() as int, !mask, v, j, i);
    }
}

/// Baseline narrowings never add an identity to any card.
proof fn lemma_baseline_never_widens(kv: KnowledgeView, pairs: Seq<(CardDeckIndex, u64)>, needed: u64, v: &Variant, j: int, i: int)
    requires
        kv.inferred.len() == MAX_CARDS_IN_DECK,
        0 <= j < MAX_CARDS_IN_DECK,
        forall|q: int| 0 <= q < pairs.len() ==> (#[trigger] pairs[q]).0 < MAX_CARDS_IN_DECK,
    ensures
        in_mask(baseline_applied(kv, pairs, needed, v).base(j, v), i) ==> in_mask(kv.base(j, v), i),
        kv.base(j, v) != 0 ==> baseline_applied(kv, pairs, needed, v).base(j, v) != 0,
        baseline_applied(kv, pairs, needed, v).inferred.len() == MAX_CARDS_IN_DECK,
    decreases pairs.len(),
{
    if pairs.len() > 0 {
        let t = pairs.drop_last();
        lemma_baseline_never_widens(kv, t, needed, v, j, i);
        let prev = baseline_applied(kv, t, needed, v);
        assert(pairs.last() == pairs[pairs.len() - 1]);
        crate::engine::knowledge::player_knowledge::lemma_narrow_never_widens(prev, pairs.last().0 as int, pairs.last().1, v, j, i);
    }
}

/// A clue only ever removes identities from the receiver's baseline knowledge: first its
/// literal narrowing, then the good-touch baseline; neither empties a card.
pub proof fn lemma_clue_never_widens(
    kv: KnowledgeView,
    hand: Seq<CardDeckIndex>,
    touched: Seq<CardDeckIndex>,
    mask: u64,
    pairs: Seq<(CardDeckIndex, u64)>,
    needed: u64,
    v: &Variant,
    j: int,
    i: int,
)
    requires
        kv.inferred.len() == MAX_CARDS_IN_DECK,
        0 <= j < MAX_CARDS_IN_DECK,
        forall|q: int| 0 <= q < hand.len() ==> #[trigger] hand[q] < MAX_CARDS_IN_DECK,
        forall|q: int| 0 <= q < pairs.len() ==> (#[trigger] pairs[q]).0 < MAX_CARDS_IN_DECK,
    ensures
        in_mask(baseline_applied(clue_narrowed_hand(kv, hand, touched, mask, v), pairs, needed, v).base(j, v), i) ==> in_mask(kv.base(j, v), i),
        kv.base(j, v) != 0 ==> baseline_applied(clue_narrowed_hand(kv, hand, touched, mask, v), pairs, needed, v).base(j, v) != 0,
{
    lemma_clue_hand_never_widens(kv, hand, touched, mask, v, j, i);
    lemma_baseline_never_widens(clue_narrowed_hand(kv, hand, touched, mask, v), pairs, needed, v, j, i);
}

/// Keeping the updates on one's own hand keeps them well formed.
proof fn lemma_own_updates_wf(us: Seq<KnowledgeUpdate>, own: u64)
    requires
        updates_wf(us),
    ensures
        updates_wf(own_updates(us, own)),
    decreases us.len(),
{
    if us.len() > 0 {
        let t = us.drop_last();
        assert forall|q: int| 0 <= q < t.len() implies (#[trigger] t[q]).target() < MAX_CARDS_IN_DECK by {
            assert(t[q] == us[q]);
        }
        lemma_own_updates_wf(t, own);
        assert(us.last() == us[us.len() - 1]);
        let r = own_updates(us, own);
        let pr = own_updates(t, own);
        assert forall|q: int| 0 <= q < r.len() implies (#[trigger] r[q]).target() < MAX_CARDS_IN_DECK by {
            if q < pr.len() {
                assert(r[q] == pr[q]);
            }
        }
    }
}

/// Cutting hypotheses down to one's own hand keeps them well formed.
proof fn lemma_own_hyps_wf(hs: Seq<(u8, HypothesisView)>, own: u64)
    requires
        forall|k: int| 0 <= k < hs.len() ==> updates_wf((#[trigger] hs[k]).1.immediate),
    ensures
        forall|k: int| 0 <= k < own_hyps(hs, own).len() ==> updates_wf((#[trigger] own_hyps(hs, own)[k]).1.immediate),
    decreases hs.len(),
{
    if hs.len() > 0 {
        let t = hs.drop_last();
        assert forall|k: int| 0 <= k < t.len() implies updates_wf((#[trigger] t[k]).1.immediate) by {
            assert(t[k] == hs[k]);
        }
        lemma_own_hyps_wf(t, own);
        assert(hs.last() == hs[hs.len() - 1]);
        lemma_own_updates_wf(hs.last().1.immediate, own);
        let r = own_hyps(hs, own);
        let pr = own_hyps(t, own);
        assert forall|k: int| 0 <= k < r.len() implies updates_wf((#[trigger] r[k]).1.immediate) by {
            if k < pr.len() {
                assert(r[k] == pr[k]);
            }
        }
    }
}

/// A seat storing its part of well-formed hypotheses adds no identity to any seat's card.
proof fn lemma_store_own_never_widens(
    views: Seq<KnowledgeView>,
    t: int,
    cohort: HypothesisId,
    hs: Seq<(u8, HypothesisView)>,
    next_id: int,
    v: &Variant,
    p: int,
    j: int,
    i: int,
)
    requires
        0 <= t < views.len(),
        0 <= p < views.len(),
        views[p].inferred.len() == MAX_CARDS_IN_DECK,
        forall|k: int| 0 <= k < hs.len() ==> updates_wf((#[trigger] hs[k]).1.immediate),
        0 <= j < MAX_CARDS_IN_DECK,
    ensures
        in_mask(store_own(views, t, cohort, hs, next_id, v).0[p].base(j, v), i) ==> in_mask(views[p].base(j, v), i),
        store_own(views, t, cohort, hs, next_id, v).0[p].inferred.len() == MAX_CARDS_IN_DECK,
{
    if p == t {
        let f = own_hyps(hs, views[t].own_hand);
        lemma_own_hyps_wf(hs, views[t].own_hand);
        if next_id + f.len() <= u32::MAX {
            crate::engine::knowledge::player_knowledge::lemma_after_cohort_never_widens(views[t], cohort, f, next_id, v, j, i);
        }
    }
}

/// The seats' interpretations of a clue, up to seat `k`, add no identity to seat `p`'s card.
proof fn lemma_clue_steps_never_widen(
    teams: Seq<TeamKnowledge>,
    ids: Seq<int>,
    k: int,
    receiver: int,
    giver: int,
    cohort: HypothesisId,
    ts: TableState,
    lh: Seq<GameStateSnapshot>,
    a: GameActionView,
    techs: Seq<ConventionTech>,
    sd: StaticGameData,
    p: int,
    j: int,
    i: int,
)
    requires
        0 <= k <= MAX_PLAYERS_IN_GAME,
        k < teams.len(),
        k < ids.len(),
        forall|s: int| 0 <= s < k ==> #[trigger] clue_step(teams, ids, s, receiver, giver, cohort, ts, lh, a, techs, sd),
        0 <= p < MAX_PLAYERS_IN_GAME,
        teams[0].views()[p].inferred.len() == MAX_CARDS_IN_DECK,
        0 <= j < MAX_CARDS_IN_DECK,
    ensures
        in_mask(teams[k].views()[p].base(j, &sd.variant), i) ==> in_mask(teams[0].views()[p].base(j, &sd.variant), i),
        teams[k].views()[p].inferred.len() == MAX_CARDS_IN_DECK,
    decreases k,
{
    if k > 0 {
        lemma_clue_steps_never_widen(teams, ids, k - 1, receiver, giver, cohort, ts, lh, a, techs, sd, p, j, i);
        assert(clue_step(teams, ids, k - 1, receiver, giver, cohort, ts, lh, a, techs, sd));
        if k - 1 != receiver {
            let s = k - 1;
            let hs = collect_from(
                techs,
                0,
                None,
                None,
                a,
                lh,
                LightweightPlayerPOV::pov_of(s as usize, &teams[s].knowledge(giver), &teams[s], &on_turn(ts, s), &sd),
            );
            lemma_store_own_never_widens(teams[s].views(), s, cohort, hs, ids[s], &sd.variant, p, j, i);
        }
    }
}

/// A clue's whole interpretation only ever removes identities from a seat's baseline
/// knowledge: the receiver's literal narrowing and good-touch baseline, the receiver's
/// stored interpretation, then every other seat's, take no identity back.
pub proof fn lemma_clue_interpretation_never_widens(
    o: KnowledgeAwareGameState,
    ts: TableState,
    result: Seq<KnowledgeView>,
    next_id: int,
    a: GameActionView,
    techs: Seq<ConventionTech>,
    p: int,
    j: int,
    i: int,
)
    requires
        o.wf(),
        apply_args_wf(a, &o.sd()),
        clue_outcome(o, ts, result, next_id, a, techs),
        0 <= p < o.n(),
        0 <= j < MAX_CARDS_IN_DECK,
    ensures
        in_mask(result[p].base(j, &o.sd().variant), i) ==> in_mask(o.views()[p].base(j, &o.sd().variant), i),
{
    o.lemma_wf();
    o.team().lemma_wf();
    let (lh, mid, teams, ids) = choose|lh: Seq<GameStateSnapshot>, mid: TeamKnowledge, teams: Seq<TeamKnowledge>, ids: Seq<int>|
        #[trigger] clue_witness(o, ts, result, next_id, a, techs, lh, mid, teams, ids);
    assert(clue_witness(o, ts, result, next_id, a, techs, lh, mid, teams, ids));
    match a {
        GameActionView::Clue { player_index: receiver, touched, clue, turn } => {
            let v = o.sd().variant;
            let vm = clue_baseline_views(o, ts, touched, clue, receiver);
            let r = receiver as int;
            assert(o.team().knowledge(p).wf());
            assert(o.team().knowledge(r).wf());
            let kv0 = o.team().view_of(r);
            let hand = o.ts().hand(r);
            let mask = v.clue_mask(clue.clue_type, clue.clue_value as int);
            let pairs = baseline_pairs(touched, good_touch_baseline_spec(&clue, receiver, &ts, &o.sd()));
            assert forall|q: int| 0 <= q < hand.len() implies #[trigger] hand[q] < MAX_CARDS_IN_DECK by {
                assert(o.ts().hands@[r]@[q] < MAX_CARDS_IN_DECK);
            }
            assert forall|q: int| 0 <= q < pairs.len() implies (#[trigger] pairs[q]).0 < MAX_CARDS_IN_DECK by {
                assert(touched[q] < MAX_CARDS_IN_DECK);
            }
            lemma_clue_hand_never_widens(kv0, hand, touched, mask, &v, j, i);
            let kv1 = clue_narrowed_hand(kv0, hand, touched, mask, &v);
            lemma_baseline_never_widens(kv1, pairs, still_needed_mask(&ts, &o.sd()), &v, j, i);
            assert(vm[r] == baseline_applied(kv1, pairs, still_needed_mask(&ts, &o.sd()), &v));
            let rh = collect_from(
                techs,
                0,
                None,
                None,
                a,
                lh,
                LightweightPlayerPOV::pov_of(receiver, &mid.knowledge(r), &mid, &ts, &o.sd()),
            );
            let first = id_after(o.next_id()) as int;
            if first + rh.len() <= u32::MAX {
                crate::engine::knowledge::player_knowledge::lemma_after_cohort_never_widens(vm[r], o.next_id(), rh, first, &v, j, i);
            }
            assert(teams[0].views()[p] == vm.update(r, stored(vm[r], o.next_id(), rh, first, &v))[p]);
            lemma_clue_steps_never_widen(teams, ids, o.n(), r, o.ts().active_player_index as int, o.next_id(), ts, lh, a, techs, o.sd(), p, j, i);
        },
        _ => {},
    }
}

/// After a draw of known identity, every other seated player sees the card and knows its
/// identity; the drawer only records it in their own hand and learns nothing of it.
pub proof fn lemma_draw_visibility(views: Seq<KnowledgeView>, drawer: int, idx: int, id: int, n: int, q: int)
    requires
        0 <= q < views.len(),
        0 <= drawer < views.len(),
        0 <= idx < MAX_CARDS_IN_DECK,
        0 <= id < 64,
        0 <= idx < views[q].inferred.len(),
    ensures
        q != drawer && q < n ==> in_mask(seen_draw(views, drawer, idx, id, n)[q].visible, idx)
            && seen_draw(views, drawer, idx, id, n)[q].inferred[idx] == Some(CardIdentityMask { bits: single(id) }),
        in_mask(seen_draw(views, drawer, idx, id, n)[drawer].own_hand, idx),
        seen_draw(views, drawer, idx, id, n)[drawer].visible == views[drawer].visible,
        seen_draw(views, drawer, idx, id, n)[drawer].inferred == views[drawer].inferred,
{
    broadcast use group_bits;

    assert(in_mask(single(idx), idx));
}

/// A played or discarded card leaves the actor's own-hand record, and the card drawn in its
/// place joins it.
pub proof fn lemma_hand_cycled(views: Seq<KnowledgeView>, p: int, idx: int, drawn: Option<CardDeckIndex>, j: int)
    requires
        0 <= p < views.len(),
        0 <= idx < MAX_CARDS_IN_DECK,
        drawn matches Some(d) ==> d < MAX_CARDS_IN_DECK && d != idx,
    ensures
        !in_mask(hand_cycled(views, p, idx, drawn)[p].own_hand, idx),
        drawn matches Some(d) ==> in_mask(hand_cycled(views, p, idx, drawn)[p].own_hand, d as int),
        j != idx && j != (match drawn { Some(d) => d as int, None => -1 }) ==> (in_mask(hand_cycled(views, p, idx, drawn)[p].own_hand, j) <==> in_mask(views[p].own_hand, j)),
{
    broadcast use group_bits;

    assert(in_mask(single(idx), idx));
    if let Some(d) = drawn {
        assert(in_mask(single(d as int), d as int));
    }
}

/// Raising entry `j` of `s` by one raises the sum of the first `n` entries by one when
/// `j < n`.
proof fn lemma_sum_prefix_raise(s: Seq<u8>, j: int, n: int)
    requires
        0 <= j < s.len(),
        0 <= n <= s.len(),
        s[j] < 255,
    ensures
        crate::game::table_state::sum_prefix(s.update(j, (s[j] + 1) as u8), n)
            == crate::game::table_state::sum_prefix(s, n) + if j < n { 1int } else { 0int },
    decreases n,
{
    if n > 0 {
        lemma_sum_prefix_raise(s, j, n - 1);
    }
}

/// Good-touch reinterpretation of a hand leaves the own-hand record alone.
proof fn lemma_regood_hand_keeps_own(kv: KnowledgeView, hand: Seq<CardDeckIndex>, touched: u64, needed: u64, v: &Variant)
    ensures
        regood_hand(kv, hand, touched, needed, v).own_hand == kv.own_hand,
    decreases hand.len(),
{
    if hand.len() > 0 {
        lemma_regood_hand_keeps_own(kv, hand.drop_last(), touched, needed, v);
    }
}

/// Storing a cohort leaves every seat's own-hand record alone.
proof fn lemma_spread_keeps_own(
    views: Seq<KnowledgeView>,
    i: int,
    n: int,
    skip: int,
    cohort: HypothesisId,
    hs: Seq<(u8, HypothesisView)>,
    next_id: int,
    v: &Variant,
    q: int,
)
    requires
        0 <= i,
        n <= views.len(),
        0 <= q < views.len(),
    ensures
        spread_cohort(views, i, n, skip, cohort, hs, next_id, v).0.len() == views.len(),
        spread_cohort(views, i, n, skip, cohort, hs, next_id, v).0[q].own_hand == views[q].own_hand,
    decreases n - i,
{
    if i < n && i != skip {
        let f = own_hyps(hs, views[i].own_hand);
        let ne = crate::engine::knowledge::player_knowledge::non_empty_hyps(f);
        if next_id + f.len() <= u32::MAX && ne.len() == 1 && ne[0].1.trigger is None {
            crate::engine::knowledge::player_knowledge::lemma_bake_keeps(views[i], ne[0].1.immediate, v);
        }
        let st = store_own(views, i, cohort, hs, next_id, v);
        lemma_spread_keeps_own(st.0, i + 1, n, skip, cohort, hs, st.1, v, q);
    } else if i < n {
        lemma_spread_keeps_own(views, i + 1, n, skip, cohort, hs, next_id, v, q);
    }
}

/// A played card leaves the actor's hand and its own-hand record, unless the card drawn in
/// its place takes the same deck position.
pub proof fn lemma_play_removes_the_card(o: KnowledgeAwareGameState, ts: TableState, idx: CardDeckIndex, techs: Seq<ConventionTech>, truth: Option<VariantCardId>)
    requires
        o.wf(),
        idx < MAX_CARDS_IN_DECK,
        o.ts().deck_size == 0 || o.next_draw() != idx,
    ensures
        ({
            let po = play_outcome(o, ts, idx, techs, truth);
            let p = o.ts().active_player_index as int;
            &&& !po.0.hands[p].contains(idx)
            &&& !in_mask(po.3[p].own_hand, idx as int)
        }),
{
    broadcast use group_bits;

    o.lemma_wf();
    let p = o.ts().active_player_index as int;
    let t = o.ts()@;
    let hand = t.hands[p];
    crate::game::table_state::lemma_remove_all_contains(hand, idx, idx);
    let next = o.next_draw();
    if o.ts().deck_size > 0 {
        assert((seq![next] + remove_all(hand, idx)).contains(idx) ==> false) by {
            if (seq![next] + remove_all(hand, idx)).contains(idx) {
                let k = choose|k: int| 0 <= k < (seq![next] + remove_all(hand, idx)).len() && (seq![next] + remove_all(hand, idx))[k] == idx;
                if k > 0 {
                    assert(remove_all(hand, idx)[k - 1] == idx);
                }
            }
        }
    }
    let drawn = refill_pos(o.ts().deck_size, next);
    let v2 = hand_cycled(o.views(), p, idx as int, drawn);
    assert(!in_mask(v2[p].own_hand, idx as int));
    let kv = o.team().view_of(p);
    let id = play_identity(kv, idx as int, &o.ts(), &o.sd(), truth);
    let advanced = id matches Some(i) && o.ts().is_playable_id(&o.sd().variant, i as int);
    let v3 = if advanced { regood_team(v2, &ts, &o.sd()) } else { v2 };
    if advanced && p < o.sd().number_of_players {
        lemma_regood_hand_keeps_own(v2[p], ts.hand(p), ts.clue_touched_cards, still_needed_mask(&ts, &o.sd()), &o.sd().variant);
    }
    assert(v3[p].own_hand == v2[p].own_hand);
    lemma_spread_keeps_own(v3, 0, o.n(), p, o.next_id(), o.play_hyps(techs, idx), id_after(o.next_id()) as int, &o.sd().variant, p);
}

/// A play never lowers the score and adds at most one point to it, on a stack or as a
/// phantom play; the phantom count never decreases; the actor draws the next deck card
/// exactly when the deck is not empty.
pub proof fn lemma_play_adds_at_most_one_point(o: KnowledgeAwareGameState, ts: TableState, idx: CardDeckIndex, techs: Seq<ConventionTech>, truth: Option<VariantCardId>)
    requires
        o.wf(),
    ensures
        ({
            let po = play_outcome(o, ts, idx, techs, truth);
            let before = o.ts().score_spec() + o.phantoms();
            let after = crate::game::table_state::sum_prefix(po.0.playing_stacks, po.0.playing_stacks.len() as int) + po.2;
            &&& before <= after <= before + 1
            &&& po.2 >= o.phantoms()
            &&& po.1 == if o.ts().deck_size > 0 { o.next_draw() + 1 } else { o.next_draw() as int }
            &&& po.0.deck_size == if o.ts().deck_size > 0 { o.ts().deck_size - 1 } else { 0 }
        }),
{
    o.lemma_wf();
    let p = o.ts().active_player_index as int;
    let kv = o.team().view_of(p);
    let id = play_identity(kv, idx as int, &o.ts(), &o.sd(), truth);
    let t = o.ts()@;
    let n = t.playing_stacks.len() as int;
    match id {
        Some(i) => {
            let suit = i as int / 5;
            assert(i < o.sd().variant.total_ids());
            assert(0 <= suit < n);
            if t.playing_stacks[suit] == i % 5 {
                assert(t.playing_stacks[suit] <= 5);
                lemma_sum_prefix_raise(t.playing_stacks, suit, n);
            }
        },
        None => {},
    }
}

/// A play whose identity stays unknown moves no stack, earns no strike and discards
/// nothing; it counts as a phantom play exactly when the actor knew the card playable.
pub proof fn lemma_phantom_play(o: KnowledgeAwareGameState, ts: TableState, idx: CardDeckIndex, techs: Seq<ConventionTech>, truth: Option<VariantCardId>)
    requires
        play_identity(o.team().view_of(o.ts().active_player_index as int), idx as int, &o.ts(), &o.sd(), truth) is None,
    ensures
        play_outcome(o, ts, idx, techs, truth).0.playing_stacks == o.ts()@.playing_stacks,
        play_outcome(o, ts, idx, techs, truth).0.strike_tokens == o.ts()@.strike_tokens,
        play_outcome(o, ts, idx, techs, truth).0.discard_pile == o.ts()@.discard_pile,
        play_outcome(o, ts, idx, techs, truth).2 == if known_playable(o.team().view_of(o.ts().active_player_index as int), idx as int, &o.ts(), &o.sd()) {
            if o.phantoms() < u8::MAX { (o.phantoms() + 1) as u8 } else { o.phantoms() }
        } else {
            o.phantoms()
        },
{
}

} // verus!
