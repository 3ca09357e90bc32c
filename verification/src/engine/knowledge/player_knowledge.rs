//! Per-player knowledge: baseline narrowings, signals and tracked hypothesis cohorts.
use vstd::prelude::*;
use crate::bits::{group_bits, in_mask, single, bit, test_bit, is_singleton, mask_of, lemma_mask_of_eq, lemma_mask_of, positions_mask, lemma_positions_mask};
use crate::engine::convention::hgroup::signal::Signal;
use crate::engine::knowledge::knowledge_update::{
    copy_updates, hyp_unconditional, updates_wf, Hypothesis, HypothesisId, HypothesisView, KnowledgeUpdate,
    PendingTrigger, TrackedHypothesis, TrackedView,
};
use crate::game::action::{GameAction, GameActionView};
use crate::game::card::{CardDeckIndex, CardIdentityMask, DeckCardsBitField, VariantCardId, VariantCardsBitField};
use crate::game::static_game_data::StaticGameData;
use crate::game::table_state::TableState;
use crate::game::variant::Variant;
use crate::game::{PlayerIndex, MAX_CARDS_IN_DECK};

verus! {

broadcast use group_bits;

/// Signals attached to one card, stored inline for the usual zero to two signals.
#[verifier::external_body]
#[derive(Debug)]
pub struct SignalList {
    inner: smallvec::SmallVec<[Signal; 2]>,
}

/// The signals a [`SignalList`] holds, in order.
pub uninterp spec fn signal_list_seq(v: SignalList) -> Seq<Signal>;

/// `SmallVec::new`: an empty small vector.
#[verifier::external_body]
fn smallvec_signals_new() -> (r: SignalList)
    ensures
        signal_list_seq(r) == Seq::<Signal>::empty(),
{
    SignalList { inner: smallvec::SmallVec::new() }
}

/// `SmallVec::push`: appends one element.
#[verifier::external_body]
fn smallvec_signals_push(v: &mut SignalList, s: Signal)
    ensures
        signal_list_seq(*final(v)) == signal_list_seq(*old(v)).push(s),
{
    v.inner.push(s)
}

/// `SmallVec::as_slice`: the slice holds the elements in order.
#[verifier::external_body]
fn smallvec_signals_as_slice(v: &SignalList) -> (r: &[Signal])
    ensures
        r@ == signal_list_seq(*v),
{
    v.inner.as_slice()
}

/// `SmallVec::clone` of a vector of copyable signals: the same elements in order.
#[verifier::external_body]
fn smallvec_signals_clone(v: &SignalList) -> (r: SignalList)
    ensures
        signal_list_seq(r) == signal_list_seq(*v),
{
    SignalList { inner: v.inner.clone() }
}

impl SignalList {
    pub open spec fn view(&self) -> Seq<Signal> {
        signal_list_seq(*self)
    }

    pub fn new() -> (r: Self)
        ensures
            r@ == Seq::<Signal>::empty(),
    {
        smallvec_signals_new()
    }

    pub fn push(&mut self, s: Signal)
        ensures
            final(self)@ == old(self)@.push(s),
    {
        smallvec_signals_push(self, s)
    }

    pub fn as_slice(&self) -> (r: &[Signal])
        ensures
            r@ == self@,
    {
        smallvec_signals_as_slice(self)
    }

    /// Some signal is a play signal.
    pub fn has_play(&self) -> (r: bool)
        ensures
            r == has_play_in(self@),
    {
        let s = smallvec_signals_as_slice(self);
        let mut i: usize = 0;
        while i < s.len()
            invariant
                i <= s@.len(),
                s@ == self@,
                forall|j: int| 0 <= j < i ==> !(#[trigger] s@[j] is Play),
            decreases s.len() - i,
        {
            if let Signal::Play { .. } = s[i] {
                assert(s@[i as int] is Play);
                assert(s@ == self@);
                assert(has_play_in(s@));
                return true;
            }
            i += 1;
        }
        false
    }
}

impl Clone for SignalList {
    fn clone(&self) -> (r: Self)
        ensures
            r@ == self@,
    {
        smallvec_signals_clone(self)
    }
}

/// A list of signals holds a play signal.
pub open spec fn has_play_in(s: Seq<Signal>) -> bool {
    exists|j: int| 0 <= j < s.len() && (#[trigger] s[j]) is Play
}

/// Mathematical model of a player's knowledge.
pub struct KnowledgeView {
    pub player_index: usize,
    pub inferred: Seq<Option<CardIdentityMask>>,
    pub signals: Seq<Seq<Signal>>,
    pub visible: u64,
    pub own_hand: u64,
    pub hypotheses: Seq<TrackedView>,
}

impl KnowledgeView {
    /// Baseline identities of a card: the convention narrowing, or every identity.
    pub open spec fn base(self, idx: int, v: &Variant) -> u64 {
        match self.inferred[idx] {
            Some(m) => m.bits,
            None => v.all_ids_mask(),
        }
    }

    /// Baseline narrowing by `mask`; no effect when it would leave no identity.
    pub open spec fn narrow(self, idx: int, mask: u64, v: &Variant) -> KnowledgeView {
        let cur = self.base(idx, v);
        if cur & mask == 0 {
            self
        } else {
            KnowledgeView {
                inferred: self.inferred.update(idx, Some(CardIdentityMask { bits: cur & mask })),
                visible: if is_singleton(cur & mask) { self.visible | single(idx) } else { self.visible },
                ..self
            }
        }
    }

    pub open spec fn add_signal(self, idx: int, s: Signal) -> KnowledgeView {
        KnowledgeView { signals: self.signals.update(idx, self.signals[idx].push(s)), ..self }
    }

    pub open spec fn apply_update(self, u: KnowledgeUpdate, v: &Variant) -> KnowledgeView {
        match u {
            KnowledgeUpdate::NarrowPossibilities { card_deck_index, mask } => self.narrow(card_deck_index as int, mask, v),
            KnowledgeUpdate::AddSignal { card_deck_index, signal } => self.add_signal(card_deck_index as int, signal),
        }
    }

    /// The updates applied to the baseline in order.
    pub open spec fn bake(self, us: Seq<KnowledgeUpdate>, v: &Variant) -> KnowledgeView
        decreases us.len(),
    {
        if us.len() == 0 {
            self
        } else {
            self.bake(us.drop_last(), v).apply_update(us.last(), v)
        }
    }

    /// Some tier-0 hypothesis allows identity `i` for the card, or none of them narrows it,
    /// cohort by cohort.
    pub open spec fn hypotheses_allow(self, idx: int, i: int) -> bool {
        forall|j: int|
            0 <= j < self.hypotheses.len() && self.hypotheses[j].tier == 0 && #[trigger] updates_touch(
                self.hypotheses[j].immediate,
                idx,
            ) ==> cohort_allows(self.hypotheses, self.hypotheses[j].cohort_id, idx, i)
    }

    /// Effective identities: baseline intersected, cohort by cohort, with the union of the
    /// tier-0 hypothesis narrowings of that cohort on the card.
    pub open spec fn effective_allows(self, idx: int, i: int, v: &Variant) -> bool {
        in_mask(self.base(idx, v), i) && self.hypotheses_allow(idx, i)
    }

    /// Baseline or a tier-0 hypothesis attaches a play signal to the card.
    pub open spec fn play_signal(self, idx: int) -> bool {
        has_play_in(self.signals[idx]) || exists|j: int|
            0 <= j < self.hypotheses.len() && self.hypotheses[j].tier == 0 && #[trigger] updates_signal_play(
                self.hypotheses[j].immediate,
                idx,
            )
    }

    /// The effective identities of a card as a mask.
    pub open spec fn effective_mask(self, idx: int, v: &Variant) -> u64 {
        mask_of(64, |i: int| self.effective_allows(idx, i, v))
    }

    /// Identities of a card combining public empathy with effective knowledge; a card of
    /// the player's own hand that the player does not see gets only the effective knowledge.
    pub open spec fn combined(self, idx: int, ts: &TableState, v: &Variant) -> u64 {
        let eff = self.effective_mask(idx, v);
        if self.own_unseen(idx) {
            eff
        } else {
            let g = ts.empathy_of(idx);
            if g & eff != 0 { g & eff } else { g }
        }
    }

    pub open spec fn own_unseen(self, idx: int) -> bool {
        in_mask(self.own_hand, idx) && !in_mask(self.visible, idx)
    }
}

/// The update narrows card `idx`.
pub open spec fn narrows_card(u: KnowledgeUpdate, idx: int) -> bool {
    match u {
        KnowledgeUpdate::NarrowPossibilities { card_deck_index, .. } => card_deck_index == idx,
        _ => false,
    }
}

/// The update narrows card `idx` and keeps identity `i`.
pub open spec fn narrow_keeps(u: KnowledgeUpdate, idx: int, i: int) -> bool {
    match u {
        KnowledgeUpdate::NarrowPossibilities { card_deck_index, mask } => card_deck_index == idx && in_mask(mask, i),
        _ => false,
    }
}

/// The update attaches a play signal to card `idx`.
pub open spec fn signals_play(u: KnowledgeUpdate, idx: int) -> bool {
    match u {
        KnowledgeUpdate::AddSignal { card_deck_index, signal } => card_deck_index == idx && signal is Play,
        _ => false,
    }
}

/// Some update narrows card `idx`.
pub open spec fn updates_touch(us: Seq<KnowledgeUpdate>, idx: int) -> bool {
    exists|t: int| 0 <= t < us.len() && #[trigger] narrows_card(us[t], idx)
}

/// Some update narrowing card `idx` keeps identity `i`.
pub open spec fn updates_allow(us: Seq<KnowledgeUpdate>, idx: int, i: int) -> bool {
    exists|t: int| 0 <= t < us.len() && #[trigger] narrow_keeps(us[t], idx, i)
}

/// Some update attaches a play signal to card `idx`.
pub open spec fn updates_signal_play(us: Seq<KnowledgeUpdate>, idx: int) -> bool {
    exists|t: int| 0 <= t < us.len() && #[trigger] signals_play(us[t], idx)
}

/// Exec form of [`updates_touch`] and [`updates_allow`]: whether the updates narrow card
/// `idx`, and the union of their masks on it.
fn narrow_union(us: &Vec<KnowledgeUpdate>, idx: CardDeckIndex) -> (r: (bool, u64))
    ensures
        r.0 == updates_touch(us@, idx as int),
        forall|i: int| #[trigger] in_mask(r.1, i) <==> updates_allow(us@, idx as int, i),
{
    let mut touch = false;
    let mut m: u64 = 0;
    let mut t: usize = 0;
    while t < us.len()
        invariant
            t <= us@.len(),
            touch == exists|k: int| 0 <= k < t && #[trigger] narrows_card(us@[k], idx as int),
            forall|i: int| #[trigger] in_mask(m, i) <==> exists|k: int| 0 <= k < t && #[trigger] narrow_keeps(us@[k], idx as int, i),
        decreases us.len() - t,
    {
        match &us[t] {
            KnowledgeUpdate::NarrowPossibilities { card_deck_index, mask } => {
                if *card_deck_index == idx {
                    touch = true;
                    let ghost old_m = m;
                    m = m | *mask;
                    proof {
                        assert(narrows_card(us@[t as int], idx as int));
                        assert forall|i: int| #[trigger] in_mask(m, i) <==> exists|k: int| 0 <= k < t + 1 && #[trigger] narrow_keeps(us@[k], idx as int, i) by {
                            if in_mask(*mask, i) {
                                assert(narrow_keeps(us@[t as int], idx as int, i));
                            }
                        }
                    }
                }
            },
            KnowledgeUpdate::AddSignal { .. } => {},
        }
        t += 1;
    }
    (touch, m)
}

/// Some tier-0 hypothesis of cohort `c` keeps identity `i` for card `idx`.
pub open spec fn cohort_allows(hs: Seq<TrackedView>, c: HypothesisId, idx: int, i: int) -> bool {
    exists|k: int|
        0 <= k < hs.len() && hs[k].tier == 0 && hs[k].cohort_id == c && #[trigger] updates_allow(
            hs[k].immediate,
            idx,
            i,
        )
}

// ── Cohort storage ───────────────────────────────────────────────────────────

/// The non-empty hypotheses, order kept.
pub open spec fn non_empty_hyps(s: Seq<(u8, HypothesisView)>) -> Seq<(u8, HypothesisView)>
    decreases s.len(),
{
    if s.len() == 0 {
        s
    } else if !s.last().1.is_empty() {
        non_empty_hyps(s.drop_last()).push(s.last())
    } else {
        non_empty_hyps(s.drop_last())
    }
}

pub open spec fn has_tier0(s: Seq<(u8, HypothesisView)>) -> bool {
    exists|k: int| 0 <= k < s.len() && (#[trigger] s[k]).0 == 0
}

/// Tracked entries for a cohort: consecutive ids from `first_id`; all tier 0 when the
/// cohort has no tier-0 entry.
pub open spec fn cohort_entries(s: Seq<(u8, HypothesisView)>, cohort: HypothesisId, first_id: int) -> Seq<TrackedView> {
    Seq::new(
        s.len(),
        |k: int|
            TrackedView {
                id: (first_id + k) as u32,
                cohort_id: cohort,
                tier: if has_tier0(s) { s[k].0 } else { 0 },
                immediate: s[k].1.immediate,
                trigger: s[k].1.trigger,
                alt_group: s[k].1.alt_group,
            },
    )
}

pub open spec fn hyps_view(hs: Seq<(u8, Hypothesis)>) -> Seq<(u8, HypothesisView)> {
    hs.map_values(|p: (u8, Hypothesis)| (p.0, p.1@))
}

// ── Hypothesis resolution ────────────────────────────────────────────────────

/// `h` is resolved by `actor`'s action.
pub open spec fn triggered_by(h: TrackedView, actor: PlayerIndex) -> bool {
    trigger_is_for(h.trigger, actor)
}

pub open spec fn trigger_is_for(t: Option<PendingTrigger>, actor: PlayerIndex) -> bool {
    match t {
        Some(PendingTrigger::BlindPlay { player, .. }) => player == actor,
        None => false,
    }
}

/// Exec form of [`trigger_is_for`].
fn is_trigger_for(t: &Option<PendingTrigger>, actor: PlayerIndex) -> (r: bool)
    ensures
        r == trigger_is_for(*t, actor),
{
    match t {
        Some(PendingTrigger::BlindPlay { player, .. }) => *player == actor,
        None => false,
    }
}

/// Exec form of [`trigger_confirms`].
fn does_trigger_confirm(t: &Option<PendingTrigger>, actor: PlayerIndex, action: &GameAction, played: Option<VariantCardId>) -> (r: bool)
    ensures
        r == trigger_confirms(*t, actor, action@, played),
{
    match t {
        Some(PendingTrigger::BlindPlay { player, expected_card, expected_identity, .. }) => {
            if *player != actor {
                return false;
            }
            let plays_card = match action {
                GameAction::Play { card_deck_index, .. } => *card_deck_index == *expected_card,
                _ => false,
            };
            if !plays_card {
                return false;
            }
            match expected_identity {
                None => true,
                Some(e) => match played {
                    Some(p) => p == *e,
                    None => false,
                },
            }
        },
        None => false,
    }
}

/// `actor`'s action confirms `h`: it plays the expected card, with the expected identity
/// when one is set.
pub open spec fn confirms(h: TrackedView, actor: PlayerIndex, a: GameActionView, played: Option<VariantCardId>) -> bool {
    trigger_confirms(h.trigger, actor, a, played)
}

pub open spec fn trigger_confirms(t: Option<PendingTrigger>, actor: PlayerIndex, a: GameActionView, played: Option<VariantCardId>) -> bool {
    match t {
        Some(PendingTrigger::BlindPlay { player, expected_card, expected_identity, .. }) => {
            &&& player == actor
            &&& a matches GameActionView::Play { card_deck_index, .. } && card_deck_index == expected_card
            &&& (expected_identity is None || played == expected_identity)
        },
        None => false,
    }
}

pub open spec fn rejects(h: TrackedView, actor: PlayerIndex, a: GameActionView, played: Option<VariantCardId>) -> bool {
    triggered_by(h, actor) && !confirms(h, actor, a, played)
}

/// A confirmed hypothesis of `h`'s cohort prunes `h` (the whole cohort without alt group,
/// the same alt group otherwise).
pub open spec fn pruned(hs: Seq<TrackedView>, h: TrackedView, actor: PlayerIndex, a: GameActionView, played: Option<VariantCardId>) -> bool {
    exists|c: int|
        0 <= c < hs.len() && #[trigger] confirms(hs[c], actor, a, played) && hs[c].cohort_id
            == h.cohort_id && (hs[c].alt_group is None || hs[c].alt_group == h.alt_group)
}

pub open spec fn survives(hs: Seq<TrackedView>, h: TrackedView, actor: PlayerIndex, a: GameActionView, played: Option<VariantCardId>) -> bool {
    !rejects(h, actor, a, played) && !pruned(hs, h, actor, a, played)
}

/// Hypotheses among the first `n` of `hs` that survive, order kept.
pub open spec fn survivors(hs: Seq<TrackedView>, n: int, actor: PlayerIndex, a: GameActionView, played: Option<VariantCardId>) -> Seq<TrackedView>
    decreases n,
{
    if n <= 0 {
        Seq::empty()
    } else if survives(hs, hs[n - 1], actor, a, played) {
        survivors(hs, n - 1, actor, a, played).push(hs[n - 1])
    } else {
        survivors(hs, n - 1, actor, a, played)
    }
}

/// Dormant hypotheses of cohorts without a tier-0 member become tier 0.
pub open spec fn promote(s: Seq<TrackedView>) -> Seq<TrackedView> {
    Seq::new(
        s.len(),
        |k: int|
            if s[k].tier != 0 && !cohort_has_tier0(s, s[k].cohort_id) {
                TrackedView { tier: 0, ..s[k] }
            } else {
                s[k]
            },
    )
}

pub open spec fn cohort_has_tier0(s: Seq<TrackedView>, c: HypothesisId) -> bool {
    exists|j: int| 0 <= j < s.len() && (#[trigger] s[j]).cohort_id == c && s[j].tier == 0
}

/// Baseline after baking, in order, the updates of the confirmed hypotheses among the
/// first `n`.
pub open spec fn bake_confirmed(kv: KnowledgeView, hs: Seq<TrackedView>, n: int, actor: PlayerIndex, a: GameActionView, played: Option<VariantCardId>, v: &Variant) -> KnowledgeView
    decreases n,
{
    if n <= 0 {
        kv
    } else {
        let prev = bake_confirmed(kv, hs, n - 1, actor, a, played, v);
        if confirms(hs[n - 1], actor, a, played) {
            prev.bake(hs[n - 1].immediate, v)
        } else {
            prev
        }
    }
}

/// Baking updates leaves everything but the baseline unchanged.
pub proof fn lemma_bake_keeps(kv: KnowledgeView, us: Seq<KnowledgeUpdate>, v: &Variant)
    ensures
        kv.bake(us, v).hypotheses == kv.hypotheses,
        kv.bake(us, v).player_index == kv.player_index,
        kv.bake(us, v).own_hand == kv.own_hand,
    decreases us.len(),
{
    if us.len() > 0 {
        lemma_bake_keeps(kv, us.drop_last(), v);
    }
}

/// Baking the confirmed hypotheses leaves the hypotheses, the player and its own hand unchanged.
pub proof fn lemma_bake_confirmed_keeps(kv: KnowledgeView, hs: Seq<TrackedView>, n: int, actor: PlayerIndex, a: GameActionView, played: Option<VariantCardId>, v: &Variant)
    ensures
        bake_confirmed(kv, hs, n, actor, a, played, v).hypotheses == kv.hypotheses,
        bake_confirmed(kv, hs, n, actor, a, played, v).player_index == kv.player_index,
        bake_confirmed(kv, hs, n, actor, a, played, v).own_hand == kv.own_hand,
    decreases n,
{
    if n > 0 {
        lemma_bake_confirmed_keeps(kv, hs, n - 1, actor, a, played, v);
        lemma_bake_keeps(bake_confirmed(kv, hs, n - 1, actor, a, played, v), hs[n - 1].immediate, v);
    }
}

/// Knowledge after storing a cohort (see [`PlayerKnowledge::apply_cohort`]).
pub open spec fn after_cohort(kv: KnowledgeView, cohort_id: HypothesisId, hv: Seq<(u8, HypothesisView)>, next_id: int, v: &Variant) -> KnowledgeView {
    let ne = non_empty_hyps(hv);
    if ne.len() == 0 {
        kv
    } else if ne.len() == 1 && ne[0].1.trigger is None {
        kv.bake(ne[0].1.immediate, v)
    } else {
        KnowledgeView { hypotheses: kv.hypotheses + cohort_entries(ne, cohort_id, next_id), ..kv }
    }
}

/// The id counter after storing a cohort.
pub open spec fn ids_after_cohort(hv: Seq<(u8, HypothesisView)>, next_id: int) -> int {
    let ne = non_empty_hyps(hv);
    if ne.len() == 0 || (ne.len() == 1 && ne[0].1.trigger is None) {
        next_id
    } else {
        next_id + ne.len()
    }
}

/// Knowledge after resolving the hypotheses `actor`'s action `a` triggers.
pub open spec fn resolved(kv: KnowledgeView, actor: PlayerIndex, a: GameActionView, played: Option<VariantCardId>, v: &Variant) -> KnowledgeView {
    KnowledgeView {
        hypotheses: promote(survivors(kv.hypotheses, kv.hypotheses.len() as int, actor, a, played)),
        ..bake_confirmed(kv, kv.hypotheses, kv.hypotheses.len() as int, actor, a, played, v)
    }
}

pub open spec fn stored_wf(hs: Seq<TrackedView>) -> bool {
    forall|j: int| 0 <= j < hs.len() ==> updates_wf(#[trigger] hs[j].immediate)
}

/// Per-player mutable knowledge storage.
///
/// - **Baseline** (`inferred_identities`, `signals`): unconditional facts from revealed
///   cards, scenario setup and confirmed hypotheses.
/// - **Hypothesis cohorts** (`hypotheses`): interpretations of observed actions; the
///   effective narrowing of a card is the union of a cohort's tier-0 masks on it,
///   intersected across cohorts and with the baseline.
#[derive(Debug)]
pub struct PlayerKnowledge {
    pub player_index: usize,
    /// Baseline narrowing of each deck position.
    pub inferred_identities: Vec<Option<CardIdentityMask>>,
    /// Baseline signals of each deck position.
    pub signals: Vec<SignalList>,
    /// Deck positions whose identity this player sees.
    pub visible_cards: DeckCardsBitField,
    /// Deck positions in this player's own hand.
    pub own_hand: DeckCardsBitField,
    pub hypotheses: Vec<TrackedHypothesis>,
}

impl PlayerKnowledge {
    pub open spec fn view(&self) -> KnowledgeView {
        KnowledgeView {
            player_index: self.player_index,
            inferred: self.inferred_identities@,
            signals: self.signals@.map_values(|l: SignalList| l@),
            visible: self.visible_cards,
            own_hand: self.own_hand,
            hypotheses: self.hypotheses@.map_values(|h: TrackedHypothesis| h@),
        }
    }

    pub open spec fn wf(&self) -> bool {
        &&& self.inferred_identities@.len() == MAX_CARDS_IN_DECK
        &&& self.signals@.len() == MAX_CARDS_IN_DECK
        &&& stored_wf(self@.hypotheses)
    }

    /// Knowledge of nothing.
    pub open spec fn new_spec(player_index: usize) -> KnowledgeView {
        KnowledgeView {
            player_index,
            inferred: Seq::new(MAX_CARDS_IN_DECK as nat, |k: int| None),
            signals: Seq::new(MAX_CARDS_IN_DECK as nat, |k: int| Seq::empty()),
            visible: 0,
            own_hand: 0,
            hypotheses: Seq::empty(),
        }
    }

    /// No knowledge.
    pub fn new(player_index: usize) -> (r: Self)
        ensures
            r.wf(),
            r@.player_index == player_index,
            forall|k: int| 0 <= k < MAX_CARDS_IN_DECK ==> (#[trigger] r@.inferred[k]) is None,
            forall|k: int| 0 <= k < MAX_CARDS_IN_DECK ==> (#[trigger] r@.signals[k]).len() == 0,
            r@.visible == 0,
            r@.own_hand == 0,
            r@.hypotheses.len() == 0,
    {
        let mut inferred: Vec<Option<CardIdentityMask>> = Vec::new();
        let mut signals: Vec<SignalList> = Vec::new();
        let mut k: usize = 0;
        while k < MAX_CARDS_IN_DECK
            invariant
                k <= MAX_CARDS_IN_DECK,
                inferred@.len() == k,
                signals@.len() == k,
                forall|q: int| 0 <= q < k ==> (#[trigger] inferred@[q]) is None,
                forall|q: int| 0 <= q < k ==> (#[trigger] signals@[q])@.len() == 0,
            decreases MAX_CARDS_IN_DECK - k,
        {
            inferred.push(None);
            signals.push(SignalList::new());
            k += 1;
        }
        PlayerKnowledge {
            player_index,
            inferred_identities: inferred,
            signals,
            visible_cards: 0,
            own_hand: 0,
            hypotheses: Vec::new(),
        }
    }

    /// A copy of this knowledge.
    pub fn duplicate(&self) -> (r: Self)
        requires
            self.wf(),
        ensures
            r.wf(),
            r@ == self@,
    {
        let mut inferred: Vec<Option<CardIdentityMask>> = Vec::new();
        let mut signals: Vec<SignalList> = Vec::new();
        let mut k: usize = 0;
        while k < self.inferred_identities.len()
            invariant
                self.wf(),
                k <= MAX_CARDS_IN_DECK,
                inferred@ == self.inferred_identities@.subrange(0, k as int),
                signals@.map_values(|l: SignalList| l@) == self@.signals.subrange(0, k as int),
            decreases self.inferred_identities.len() - k,
        {
            inferred.push(self.inferred_identities[k]);
            let ghost before = signals@;
            let c = self.signals[k].clone();
            signals.push(c);
            assert(signals@ == before.push(c));
            assert(self@.signals[k as int] == self.signals@[k as int]@);
            assert(signals@.map_values(|l: SignalList| l@) =~= before.map_values(|l: SignalList| l@).push(c@));
            assert(inferred@ =~= self.inferred_identities@.subrange(0, k + 1));
            assert(signals@.map_values(|l: SignalList| l@) =~= self@.signals.subrange(0, k + 1));
            k += 1;
        }
        let mut hypotheses: Vec<TrackedHypothesis> = Vec::new();
        let mut j: usize = 0;
        while j < self.hypotheses.len()
            invariant
                j <= self.hypotheses@.len(),
                hypotheses@.map_values(|h: TrackedHypothesis| h@) == self@.hypotheses.subrange(0, j as int),
            decreases self.hypotheses.len() - j,
        {
            let ghost before = hypotheses@;
            let h = self.hypotheses[j].duplicate();
            hypotheses.push(h);
            assert(self@.hypotheses[j as int] == self.hypotheses@[j as int]@);
            assert(hypotheses@.map_values(|h: TrackedHypothesis| h@) =~= before.map_values(|h: TrackedHypothesis| h@).push(h@));
            assert(hypotheses@.map_values(|h: TrackedHypothesis| h@) =~= self@.hypotheses.subrange(0, j + 1));
            j += 1;
        }
        let r = PlayerKnowledge {
            player_index: self.player_index,
            inferred_identities: inferred,
            signals,
            visible_cards: self.visible_cards,
            own_hand: self.own_hand,
            hypotheses,
        };
        assert(r@.inferred =~= self@.inferred);
        assert(r@.signals =~= self@.signals);
        assert(r@.hypotheses =~= self@.hypotheses);
        r
    }

    /// No knowledge, for padding fixed-size collections.
    pub fn empty() -> (r: Self)
        ensures
            r.wf(),
            r@.player_index == 0,
            forall|k: int| 0 <= k < MAX_CARDS_IN_DECK ==> (#[trigger] r@.inferred[k]) is None,
            forall|k: int| 0 <= k < MAX_CARDS_IN_DECK ==> (#[trigger] r@.signals[k]).len() == 0,
            r@.visible == 0,
            r@.own_hand == 0,
            r@.hypotheses.len() == 0,
    {
        Self::new(0)
    }

    /// The card is revealed to this player as `card_id`.
    pub fn update_with_revealed_card(&mut self, card_deck_index: CardDeckIndex, card_id: VariantCardId)
        requires
            old(self).wf(),
            card_deck_index < MAX_CARDS_IN_DECK,
            card_id < 64,
        ensures
            final(self).wf(),
            final(self)@ == (KnowledgeView {
                inferred: old(self)@.inferred.update(card_deck_index as int, Some(CardIdentityMask { bits: single(card_id as int) })),
                visible: old(self)@.visible | single(card_deck_index as int),
                ..old(self)@
            }),
    {
        self.inferred_identities.set(card_deck_index as usize, Some(CardIdentityMask::known(card_id)));
        self.visible_cards = self.visible_cards | bit(card_deck_index);
        proof {
            assert(self@.signals == old(self)@.signals);
            assert(self@.hypotheses == old(self)@.hypotheses);
        }
    }

    /// Baseline narrowing of a card by `mask`; skipped when nothing would remain. A card
    /// narrowed to one identity becomes visible.
    pub fn narrow_inferred(&mut self, card_deck_index: CardDeckIndex, mask: VariantCardsBitField, variant: &Variant)
        requires
            old(self).wf(),
            variant.wf(),
            card_deck_index < MAX_CARDS_IN_DECK,
        ensures
            final(self).wf(),
            final(self)@ == old(self)@.narrow(card_deck_index as int, mask, variant),
    {
        let idx = card_deck_index as usize;
        let current = match self.inferred_identities[idx] {
            Some(m) => m,
            None => CardIdentityMask::all(variant),
        };
        if let Some(new_empathy) = current.narrow(mask) {
            self.inferred_identities.set(idx, Some(new_empathy));
            if new_empathy.is_exactly_known() {
                self.visible_cards = self.visible_cards | bit(card_deck_index);
            }
            proof {
                assert(self@.signals == old(self)@.signals);
                assert(self@.hypotheses == old(self)@.hypotheses);
            }
        }
    }

    /// Baseline narrowing of a card to the identities outside `mask`.
    pub fn exclude_inferred(&mut self, card_deck_index: CardDeckIndex, mask: VariantCardsBitField, variant: &Variant)
        requires
            old(self).wf(),
            variant.wf(),
            card_deck_index < MAX_CARDS_IN_DECK,
        ensures
            final(self).wf(),
            final(self)@ == old(self)@.narrow(card_deck_index as int, !mask, variant),
    {
        self.narrow_inferred(card_deck_index, !mask, variant)
    }

    /// Attach a baseline signal to a card.
    pub fn add_signal(&mut self, card_deck_index: CardDeckIndex, signal: Signal)
        requires
            old(self).wf(),
            card_deck_index < MAX_CARDS_IN_DECK,
        ensures
            final(self).wf(),
            final(self)@ == old(self)@.add_signal(card_deck_index as int, signal),
    {
        let idx = card_deck_index as usize;
        let mut list = self.signals[idx].clone();
        list.push(signal);
        self.signals.set(idx, list);
        proof {
            assert(self@.signals == old(self)@.signals.update(idx as int, old(self)@.signals[idx as int].push(signal)));
            assert(self@.hypotheses == old(self)@.hypotheses);
        }
    }

    /// Apply one update to the baseline.
    fn apply_baseline_update(&mut self, update: &KnowledgeUpdate, variant: &Variant)
        requires
            old(self).wf(),
            variant.wf(),
            update.target() < MAX_CARDS_IN_DECK,
        ensures
            final(self).wf(),
            final(self)@ == old(self)@.apply_update(*update, variant),
    {
        match update {
            KnowledgeUpdate::NarrowPossibilities { card_deck_index, mask } => self.narrow_inferred(*card_deck_index, *mask, variant),
            KnowledgeUpdate::AddSignal { card_deck_index, signal } => self.add_signal(*card_deck_index, *signal),
        }
    }

    /// Apply updates to the baseline, in order.
    pub fn apply_baseline_updates(&mut self, updates: &Vec<KnowledgeUpdate>, variant: &Variant)
        requires
            old(self).wf(),
            variant.wf(),
            updates_wf(updates@),
        ensures
            final(self).wf(),
            final(self)@ == old(self)@.bake(updates@, variant),
    {
        let mut i: usize = 0;
        while i < updates.len()
            invariant
                self.wf(),
                variant.wf(),
                updates_wf(updates@),
                i <= updates@.len(),
                self@ == old(self)@.bake(updates@.subrange(0, i as int), variant),
            decreases updates.len() - i,
        {
            self.apply_baseline_update(&updates[i], variant);
            proof {
                let s = updates@.subrange(0, i + 1);
                assert(s.drop_last() == updates@.subrange(0, i as int));
                assert(s.last() == updates@[i as int]);
            }
            i += 1;
        }
        assert(updates@.subrange(0, updates@.len() as int) == updates@);
    }

    /// Store the cohort of hypotheses produced by interpreting one observed action.
    ///
    /// Empty hypotheses are dropped. A single remaining hypothesis without trigger is baked
    /// into the baseline. Otherwise every remaining hypothesis is tracked under `cohort_id`
    /// with a fresh id taken from `next_id`.
    pub fn apply_cohort(
        &mut self,
        cohort_id: HypothesisId,
        hypotheses: Vec<(u8, Hypothesis)>,
        next_id: &mut HypothesisId,
        variant: &Variant,
    )
        requires
            old(self).wf(),
            variant.wf(),
            forall|k: int| 0 <= k < hypotheses@.len() ==> updates_wf((#[trigger] hypotheses@[k]).1@.immediate),
            *old(next_id) + hypotheses@.len() <= u32::MAX,
        ensures
            final(self).wf(),
            ({
                let ne = non_empty_hyps(hyps_view(hypotheses@));
                if ne.len() == 0 {
                    final(self)@ == old(self)@ && *final(next_id) == *old(next_id)
                } else if ne.len() == 1 && ne[0].1.trigger is None {
                    final(self)@ == old(self)@.bake(ne[0].1.immediate, variant) && *final(next_id) == *old(next_id)
                } else {
                    &&& final(self)@ == (KnowledgeView {
                        hypotheses: old(self)@.hypotheses + cohort_entries(ne, cohort_id, *old(next_id) as int),
                        ..old(self)@
                    })
                    &&& *final(next_id) == *old(next_id) + ne.len()
                }
            }),
            final(self)@ == after_cohort(old(self)@, cohort_id, hyps_view(hypotheses@), *old(next_id) as int, variant),
            *final(next_id) == ids_after_cohort(hyps_view(hypotheses@), *old(next_id) as int),
    {
        let ghost hv = hyps_view(hypotheses@);
        let mut non_empty: Vec<(u8, Hypothesis)> = Vec::new();
        let mut i: usize = 0;
        while i < hypotheses.len()
            invariant
                i <= hypotheses@.len(),
                hv == hyps_view(hypotheses@),
                hyps_view(non_empty@) == non_empty_hyps(hv.subrange(0, i as int)),
                forall|k: int| 0 <= k < non_empty@.len() ==> updates_wf((#[trigger] non_empty@[k]).1@.immediate),
                forall|k: int| 0 <= k < hypotheses@.len() ==> updates_wf((#[trigger] hypotheses@[k]).1@.immediate),
                non_empty@.len() <= i,
            decreases hypotheses.len() - i,
        {
            let (t, h) = &hypotheses[i];
            proof {
                let s = hv.subrange(0, i + 1);
                assert(s.drop_last() == hv.subrange(0, i as int));
                assert(s.last() == hv[i as int]);
            }
            if !h.is_empty() {
                let ghost prev = non_empty@;
                non_empty.push((*t, h.duplicate()));
                proof {
                    assert(non_empty@ == prev.push(non_empty@.last()));
                    assert(hyps_view(non_empty@) == hyps_view(prev).push(hv[i as int]));
                }
            }
            i += 1;
        }
        assert(hv.subrange(0, hv.len() as int) == hv);
        let ghost ne = non_empty_hyps(hv);
        if non_empty.len() == 0 {
            return;
        }
        if non_empty.len() == 1 && non_empty[0].1.trigger.is_none() {
            assert(hyps_view(non_empty@)[0] == ne[0]);
            self.apply_baseline_updates(&non_empty[0].1.immediate, variant);
            return;
        }
        let mut any_tier0 = false;
        let mut k: usize = 0;
        while k < non_empty.len()
            invariant
                k <= non_empty@.len(),
                any_tier0 == exists|j: int| 0 <= j < k && (#[trigger] non_empty@[j]).0 == 0,
            decreases non_empty.len() - k,
        {
            if non_empty[k].0 == 0 {
                any_tier0 = true;
            }
            k += 1;
        }
        proof {
            assert(any_tier0 == has_tier0(ne)) by {
                if any_tier0 {
                    let j = choose|j: int| 0 <= j < non_empty@.len() && (#[trigger] non_empty@[j]).0 == 0;
                    assert(hyps_view(non_empty@)[j].0 == 0);
                }
                if has_tier0(ne) {
                    let j = choose|j: int| 0 <= j < ne.len() && (#[trigger] ne[j]).0 == 0;
                    assert(non_empty@[j].0 == hyps_view(non_empty@)[j].0);
                }
            }
        }
        let ghost old_hyps = self@.hypotheses;
        let ghost first = *next_id as int;
        let n = non_empty.len();
        let mut j: usize = 0;
        while j < n
            invariant
                self.wf(),
                j <= n,
                n == non_empty@.len(),
                hyps_view(non_empty@) == ne,
                any_tier0 == has_tier0(ne),
                first == *old(next_id) as int,
                *next_id as int == first + j,
                first + n <= u32::MAX,
                self@ == (KnowledgeView { hypotheses: old_hyps + cohort_entries(ne, cohort_id, first).subrange(0, j as int), ..old(self)@ }),
                old_hyps == old(self)@.hypotheses,
                forall|k: int| 0 <= k < non_empty@.len() ==> updates_wf((#[trigger] non_empty@[k]).1@.immediate),
            decreases n - j,
        {
            let (t, h) = &non_empty[j];
            let id = *next_id;
            *next_id = *next_id + 1;
            let tier = if any_tier0 { *t } else { 0 };
            let entry = TrackedHypothesis {
                id,
                cohort_id,
                tier,
                immediate: copy_updates(&h.immediate),
                trigger: h.trigger,
                alt_group: h.alt_group,
            };
            let ghost prev_view = self@.hypotheses;
            self.hypotheses.push(entry);
            proof {
                assert(self@.hypotheses =~= prev_view.push(entry@));
                let tf = cohort_entries(ne, cohort_id, first);
                assert(hyps_view(non_empty@)[j as int] == ne[j as int]);
                assert(tf[j as int] == entry@);
                assert(tf.subrange(0, j + 1) == tf.subrange(0, j as int).push(tf[j as int]));
                assert(self@.hypotheses == old_hyps + tf.subrange(0, j + 1));
                assert(stored_wf(self@.hypotheses)) by {
                    assert forall|q: int| 0 <= q < self@.hypotheses.len() implies updates_wf(#[trigger] self@.hypotheses[q].immediate) by {
                        if q < old_hyps.len() {
                            assert(self@.hypotheses[q] == old_hyps[q]);
                        } else {
                            let r = q - old_hyps.len();
                            assert(self@.hypotheses[q] == tf[r]);
                            assert(tf[r].immediate == ne[r].1.immediate);
                            assert(ne[r] == hyps_view(non_empty@)[r]);
                            assert(updates_wf(non_empty@[r].1@.immediate));
                        }
                    }
                }
            }
            j += 1;
        }
        assert(cohort_entries(ne, cohort_id, first).subrange(0, n as int) == cohort_entries(ne, cohort_id, first));
    }

    /// Effective identities of a card: baseline intersected, cohort by cohort, with the
    /// union of that cohort's tier-0 narrowings of the card.
    pub fn effective_inferred_mask(&self, card_deck_index: CardDeckIndex, variant: &Variant) -> (r: CardIdentityMask)
        requires
            self.wf(),
            variant.wf(),
            card_deck_index < MAX_CARDS_IN_DECK,
        ensures
            forall|i: int| #[trigger] in_mask(r.bits, i) <==> self@.effective_allows(card_deck_index as int, i, variant),
            r.bits == self@.effective_mask(card_deck_index as int, variant),
    {
        let ghost hs = self@.hypotheses;
        let ghost idx = card_deck_index as int;
        let base = match self.inferred_identities[card_deck_index as usize] {
            Some(m) => m.bits,
            None => variant.all_ids(),
        };
        let n = self.hypotheses.len();
        let mut mask = base;
        let mut j: usize = 0;
        while j < n
            invariant
                self.wf(),
                j <= n,
                n == hs.len(),
                hs == self@.hypotheses,
                idx == card_deck_index,
                base == self@.base(idx, variant),
                forall|i: int| #[trigger] in_mask(mask, i) <==> (in_mask(base, i) && forall|jj: int|
                    0 <= jj < j && hs[jj].tier == 0 && #[trigger] updates_touch(hs[jj].immediate, idx)
                        ==> cohort_allows(hs, hs[jj].cohort_id, idx, i)),
            decreases n - j,
        {
            assert(hs[j as int] == self.hypotheses@[j as int]@);
            let (touch, _) = narrow_union(&self.hypotheses[j].immediate, card_deck_index);
            if self.hypotheses[j].tier == 0 && touch {
                let cohort = self.hypotheses[j].cohort_id;
                let mut union: u64 = 0;
                let mut k: usize = 0;
                while k < n
                    invariant
                        k <= n,
                        n == hs.len(),
                        hs == self@.hypotheses,
                        idx == card_deck_index,
                        forall|i: int| #[trigger] in_mask(union, i) <==> exists|kk: int|
                            0 <= kk < k && hs[kk].tier == 0 && hs[kk].cohort_id == cohort && #[trigger] updates_allow(hs[kk].immediate, idx, i),
                    decreases n - k,
                {
                    assert(hs[k as int] == self.hypotheses@[k as int]@);
                    if self.hypotheses[k].tier == 0 && self.hypotheses[k].cohort_id == cohort {
                        let (_, m) = narrow_union(&self.hypotheses[k].immediate, card_deck_index);
                        let ghost old_u = union;
                        union = union | m;
                        proof {
                            assert forall|i: int| #[trigger] in_mask(union, i) <==> exists|kk: int|
                                0 <= kk < k + 1 && hs[kk].tier == 0 && hs[kk].cohort_id == cohort && #[trigger] updates_allow(hs[kk].immediate, idx, i) by {
                                if in_mask(m, i) {
                                    assert(updates_allow(hs[k as int].immediate, idx, i));
                                }
                            }
                        }
                    }
                    k += 1;
                }
                let ghost old_mask = mask;
                mask = mask & union;
                proof {
                    assert(hs[j as int].tier == 0 && updates_touch(hs[j as int].immediate, idx));
                    assert(cohort == hs[j as int].cohort_id);
                    assert forall|i: int| #[trigger] in_mask(mask, i) <==> (in_mask(base, i) && forall|jj: int|
                        0 <= jj < j + 1 && hs[jj].tier == 0 && #[trigger] updates_touch(hs[jj].immediate, idx)
                            ==> cohort_allows(hs, hs[jj].cohort_id, idx, i)) by {
                        assert(in_mask(union, i) <==> cohort_allows(hs, cohort, idx, i));
                        if in_mask(mask, i) {
                            assert(in_mask(old_mask, i) && in_mask(union, i));
                        }
                        if in_mask(base, i) && forall|jj: int|
                            0 <= jj < j + 1 && hs[jj].tier == 0 && #[trigger] updates_touch(hs[jj].immediate, idx)
                                ==> cohort_allows(hs, hs[jj].cohort_id, idx, i) {
                            assert(cohort_allows(hs, hs[j as int].cohort_id, idx, i));
                            assert(in_mask(union, i));
                            assert(in_mask(old_mask, i));
                        }
                    }
                }
            } else {
                proof {
                    assert(!(hs[j as int].tier == 0 && updates_touch(hs[j as int].immediate, idx)));
                    assert forall|i: int| #[trigger] in_mask(mask, i) <==> (in_mask(base, i) && forall|jj: int|
                        0 <= jj < j + 1 && hs[jj].tier == 0 && #[trigger] updates_touch(hs[jj].immediate, idx)
                            ==> cohort_allows(hs, hs[jj].cohort_id, idx, i)) by {
                        if in_mask(mask, i) {
                            assert forall|jj: int| 0 <= jj < j + 1 && hs[jj].tier == 0 && #[trigger] updates_touch(hs[jj].immediate, idx)
                                implies cohort_allows(hs, hs[jj].cohort_id, idx, i) by {
                                if jj == j {
                                    assert(!(hs[j as int].tier == 0 && updates_touch(hs[j as int].immediate, idx)));
                                }
                            }
                        }
                    }
                }
            }
            j += 1;
        }
        proof {
            lemma_mask_of_eq(mask, 64, |i: int| self@.effective_allows(idx, i, variant));
        }
        CardIdentityMask { bits: mask }
    }

    /// A baseline signal or a tier-0 hypothesis attaches a play signal to the card.
    pub fn has_play_signal(&self, card_deck_index: CardDeckIndex) -> (r: bool)
        requires
            self.wf(),
            card_deck_index < MAX_CARDS_IN_DECK,
        ensures
            r == self@.play_signal(card_deck_index as int),
    {
        let ghost hs = self@.hypotheses;
        let ghost idx = card_deck_index as int;
        if self.signals[card_deck_index as usize].has_play() {
            return true;
        }
        let n = self.hypotheses.len();
        let mut j: usize = 0;
        while j < n
            invariant
                j <= n,
                n == hs.len(),
                hs == self@.hypotheses,
                idx == card_deck_index,
                forall|jj: int| 0 <= jj < j ==> !(hs[jj].tier == 0 && #[trigger] updates_signal_play(hs[jj].immediate, idx)),
            decreases n - j,
        {
            assert(hs[j as int] == self.hypotheses@[j as int]@);
            if self.hypotheses[j].tier == 0 {
                let us = &self.hypotheses[j].immediate;
                let mut t: usize = 0;
                while t < us.len()
                    invariant
                        j < n,
                        n == hs.len(),
                        idx == card_deck_index,
                        hs == self@.hypotheses,
                        hs[j as int].tier == 0,
                        t <= us@.len(),
                        us@ == hs[j as int].immediate,
                        forall|k: int| 0 <= k < t ==> !#[trigger] signals_play(us@[k], idx),
                    decreases us.len() - t,
                {
                    let u = us[t];
                    if let KnowledgeUpdate::AddSignal { card_deck_index: c, signal } = u {
                        if let Signal::Play { .. } = signal {
                            if c == card_deck_index {
                                assert(signals_play(us@[t as int], idx));
                                assert(updates_signal_play(hs[j as int].immediate, idx));
                                return true;
                            }
                        }
                    }
                    t += 1;
                }
            }
            j += 1;
        }
        false
    }

    /// Baseline identities of a card (no hypothesis contribution).
    pub fn possible_identities(&self, card_deck_index: CardDeckIndex) -> (r: Option<CardIdentityMask>)
        requires
            self.wf(),
            card_deck_index < MAX_CARDS_IN_DECK,
        ensures
            r == self@.inferred[card_deck_index as int],
    {
        self.inferred_identities[card_deck_index as usize]
    }

    /// Public empathy merged with effective knowledge. For an unseen card of the player's
    /// own hand only the effective knowledge counts: the player cannot see it.
    pub fn combined_possible_identities(&self, card_deck_index: CardDeckIndex, table_state: &TableState, sd: &StaticGameData) -> (r: CardIdentityMask)
        requires
            self.wf(),
            table_state.wf(sd),
            card_deck_index < MAX_CARDS_IN_DECK,
        ensures
            r.bits == self@.combined(card_deck_index as int, table_state, &sd.variant),
    {
        let is_own_unseen = test_bit(self.own_hand, card_deck_index) && !test_bit(self.visible_cards, card_deck_index);
        let effective = self.effective_inferred_mask(card_deck_index, &sd.variant);
        if is_own_unseen {
            return effective;
        }
        let game_empathy = table_state.get_global_empathy(sd, card_deck_index);
        match game_empathy.narrow(effective.as_bits()) {
            Some(combined) => combined,
            None => game_empathy,
        }
    }

    /// Resolve the provisional hypotheses that `actor`'s `action` triggers.
    ///
    /// A confirmed hypothesis has its updates baked into the baseline and prunes its
    /// siblings (the whole cohort, or its alt group); a rejected one is dropped. Dormant
    /// hypotheses of a cohort left without tier-0 member become tier 0. `played_identity`
    /// is the identity of the played card, when known.
    pub fn resolve_pending(&mut self, actor: PlayerIndex, action: &GameAction, played_identity: Option<VariantCardId>, variant: &Variant)
        requires
            old(self).wf(),
            variant.wf(),
        ensures
            final(self).wf(),
            final(self)@ == resolved(old(self)@, actor, action@, played_identity, variant),
            final(self)@ == (KnowledgeView {
                hypotheses: promote(survivors(old(self)@.hypotheses, old(self)@.hypotheses.len() as int, actor, action@, played_identity)),
                ..bake_confirmed(old(self)@, old(self)@.hypotheses, old(self)@.hypotheses.len() as int, actor, action@, played_identity, variant)
            }),
    {
        let ghost hs = self@.hypotheses;
        let ghost a = action@;
        let n = self.hypotheses.len();
        // Bake the confirmed hypotheses, in order.
        let mut j: usize = 0;
        while j < n
            invariant
                self.wf(),
                variant.wf(),
                j <= n,
                n == hs.len(),
                self@.hypotheses == hs,
                hs == old(self)@.hypotheses,
                a == action@,
                self@ == bake_confirmed(old(self)@, hs, j as int, actor, a, played_identity, variant),
            decreases n - j,
        {
            assert(self@.hypotheses[j as int] == self.hypotheses@[j as int]@);
            let c = does_trigger_confirm(&self.hypotheses[j].trigger, actor, action, played_identity);
            if c {
                let us = copy_updates(&self.hypotheses[j].immediate);
                assert(updates_wf(hs[j as int].immediate));
                self.apply_baseline_updates(&us, variant);
                proof {
                    lemma_bake_keeps(bake_confirmed(old(self)@, hs, j as int, actor, a, played_identity, variant), us@, variant);
                }
            }
            proof {
                lemma_bake_confirmed_keeps(old(self)@, hs, j + 1, actor, a, played_identity, variant);
            }
            j += 1;
        }
        // Keep the survivors.
        let mut kept: Vec<TrackedHypothesis> = Vec::new();
        let mut j: usize = 0;
        while j < n
            invariant
                self.wf(),
                j <= n,
                n == hs.len(),
                self@.hypotheses == hs,
                a == action@,
                kept@.map_values(|h: TrackedHypothesis| h@) == survivors(hs, j as int, actor, a, played_identity),
                stored_wf(kept@.map_values(|h: TrackedHypothesis| h@)),
            decreases n - j,
        {
            assert(self@.hypotheses[j as int] == self.hypotheses@[j as int]@);
            let h = &self.hypotheses[j];
            let rej = is_trigger_for(&h.trigger, actor) && !does_trigger_confirm(&h.trigger, actor, action, played_identity);
            let mut pr = false;
            let mut c: usize = 0;
            while c < n
                invariant
                    c <= n,
                    j < n,
                    n == hs.len(),
                    self@.hypotheses == hs,
                    a == action@,
                    h@ == hs[j as int],
                    pr == exists|k: int| 0 <= k < c && #[trigger] confirms(hs[k], actor, a, played_identity) && hs[k].cohort_id == h@.cohort_id && (hs[k].alt_group is None || hs[k].alt_group == h@.alt_group),
                decreases n - c,
            {
                assert(self@.hypotheses[c as int] == self.hypotheses@[c as int]@);
                let other = &self.hypotheses[c];
                let cf = does_trigger_confirm(&other.trigger, actor, action, played_identity);
                let same_cohort = other.cohort_id == h.cohort_id;
                let same_group = match other.alt_group {
                    None => true,
                    Some(g) => match h.alt_group {
                        Some(g2) => g == g2,
                        None => false,
                    },
                };
                let hit = cf && same_cohort && same_group;
                proof {
                    let cond = confirms(hs[c as int], actor, a, played_identity) && hs[c as int].cohort_id == h@.cohort_id && (hs[c as int].alt_group is None || hs[c as int].alt_group == h@.alt_group);
                    assert(hit == cond);
                    if cond {
                        assert(confirms(hs[c as int], actor, a, played_identity));
                    }
                }
                if hit {
                    pr = true;
                }
                c += 1;
            }
            proof {
                assert(pr == pruned(hs, hs[j as int], actor, a, played_identity));
            }
            if !rej && !pr {
                let ghost prev = kept@;
                kept.push(h.duplicate());
                proof {
                    assert(kept@.map_values(|h: TrackedHypothesis| h@) =~= prev.map_values(|h: TrackedHypothesis| h@).push(hs[j as int]));
                }
            }
            j += 1;
        }
        // Promote the dormant hypotheses of cohorts left without a tier-0 member.
        let ghost kv = kept@.map_values(|h: TrackedHypothesis| h@);
        let m = kept.len();
        let mut fin: Vec<TrackedHypothesis> = Vec::new();
        let mut k: usize = 0;
        while k < m
            invariant
                k <= m,
                m == kept@.len(),
                kv == kept@.map_values(|h: TrackedHypothesis| h@),
                stored_wf(kv),
                fin@.map_values(|h: TrackedHypothesis| h@) == promote(kv).subrange(0, k as int),
            decreases m - k,
        {
            assert(kv[k as int] == kept@[k as int]@);
            let mut has0 = false;
            let mut q: usize = 0;
            while q < m
                invariant
                    q <= m,
                    m == kept@.len(),
                    kv == kept@.map_values(|h: TrackedHypothesis| h@),
                    k < m,
                    has0 == exists|j: int| 0 <= j < q && (#[trigger] kv[j]).cohort_id == kv[k as int].cohort_id && kv[j].tier == 0,
                decreases m - q,
            {
                assert(kv[q as int] == kept@[q as int]@);
                if kept[q].cohort_id == kept[k].cohort_id && kept[q].tier == 0 {
                    has0 = true;
                }
                q += 1;
            }
            let mut entry = kept[k].duplicate();
            if entry.tier != 0 && !has0 {
                entry.tier = 0;
            }
            let ghost prev = fin@;
            fin.push(entry);
            proof {
                assert(promote(kv)[k as int] == entry@);
                assert(promote(kv).subrange(0, k + 1) == promote(kv).subrange(0, k as int).push(promote(kv)[k as int]));
                assert(fin@.map_values(|h: TrackedHypothesis| h@) =~= prev.map_values(|h: TrackedHypothesis| h@).push(entry@));
            }
            k += 1;
        }
        assert(promote(kv).subrange(0, m as int) == promote(kv));
        let ghost before = self@;
        self.hypotheses = fin;
        proof {
            assert(self@.hypotheses == promote(kv));
            assert(stored_wf(self@.hypotheses)) by {
                assert forall|q: int| 0 <= q < self@.hypotheses.len() implies updates_wf(#[trigger] self@.hypotheses[q].immediate) by {
                    assert(self@.hypotheses[q].immediate == kv[q].immediate);
                }
            }
            lemma_bake_confirmed_keeps(old(self)@, hs, n as int, actor, a, played_identity, variant);
        }
    }
}

/// Knowledge of `kv` after each `(card, mask)` of `visible` becomes a visible card narrowed
/// to `mask`, in order.
pub open spec fn with_visible(kv: KnowledgeView, visible: Seq<(CardDeckIndex, u64)>) -> KnowledgeView
    decreases visible.len(),
{
    if visible.len() == 0 {
        kv
    } else {
        let prev = with_visible(kv, visible.drop_last());
        let (idx, mask) = visible.last();
        KnowledgeView {
            inferred: prev.inferred.update(idx as int, Some(CardIdentityMask { bits: mask })),
            visible: prev.visible | single(idx as int),
            ..prev
        }
    }
}

/// Knowledge of `player_index` that sees each card of `visible` narrowed to its mask.
pub fn knowledge_with_visible(player_index: usize, visible: &[(CardDeckIndex, u64)]) -> (r: PlayerKnowledge)
    requires
        forall|k: int| 0 <= k < visible@.len() ==> (#[trigger] visible@[k]).0 < MAX_CARDS_IN_DECK,
    ensures
        r.wf(),
        r@ == with_visible(PlayerKnowledge::new_spec(player_index), visible@),
{
    let mut k = PlayerKnowledge::new(player_index);
    let ghost k0 = k@;
    assert(k0 == PlayerKnowledge::new_spec(player_index)) by {
        assert(k0.inferred =~= PlayerKnowledge::new_spec(player_index).inferred);
        assert(k0.signals =~~= PlayerKnowledge::new_spec(player_index).signals);
        assert(k0.hypotheses =~= PlayerKnowledge::new_spec(player_index).hypotheses);
    }
    let mut i: usize = 0;
    while i < visible.len()
        invariant
            i <= visible@.len(),
            k.wf(),
            forall|q: int| 0 <= q < visible@.len() ==> (#[trigger] visible@[q]).0 < MAX_CARDS_IN_DECK,
            k@ == with_visible(k0, visible@.subrange(0, i as int)),
        decreases visible.len() - i,
    {
        let (idx, mask) = visible[i];
        proof {
            let s = visible@.subrange(0, i + 1);
            assert(s.drop_last() =~= visible@.subrange(0, i as int));
            assert(s.last() == (idx, mask));
        }
        k.inferred_identities.set(idx as usize, Some(CardIdentityMask::from_bits(mask)));
        k.visible_cards = k.visible_cards | bit(idx);
        proof {
            assert(k@.signals == with_visible(k0, visible@.subrange(0, i as int)).signals);
            assert(k@.hypotheses == with_visible(k0, visible@.subrange(0, i as int)).hypotheses);
            assert(k@ == with_visible(k0, visible@.subrange(0, i + 1)));
        }
        i += 1;
    }
    assert(visible@.subrange(0, visible@.len() as int) =~= visible@);
    k
}

/// Knowledge of player 0 whose own hand holds `cards`.
pub fn knowledge_for_hand(cards: &[CardDeckIndex]) -> (r: PlayerKnowledge)
    requires
        forall|k: int| 0 <= k < cards@.len() ==> #[trigger] cards@[k] < MAX_CARDS_IN_DECK,
    ensures
        r.wf(),
        r@ == (KnowledgeView { own_hand: positions_mask(cards@), ..PlayerKnowledge::new_spec(0) }),
{
    let mut k = PlayerKnowledge::new(0);
    let ghost k0 = k@;
    assert(k0 == PlayerKnowledge::new_spec(0)) by {
        assert(k0.inferred =~= PlayerKnowledge::new_spec(0).inferred);
        assert(k0.signals =~~= PlayerKnowledge::new_spec(0).signals);
        assert(k0.hypotheses =~= PlayerKnowledge::new_spec(0).hypotheses);
    }
    let mut i: usize = 0;
    while i < cards.len()
        invariant
            i <= cards@.len(),
            k.wf(),
            forall|q: int| 0 <= q < cards@.len() ==> #[trigger] cards@[q] < MAX_CARDS_IN_DECK,
            k@ == (KnowledgeView { own_hand: positions_mask(cards@.subrange(0, i as int)), ..k0 }),
        decreases cards.len() - i,
    {
        proof {
            let s = cards@.subrange(0, i + 1);
            assert(s.drop_last() =~= cards@.subrange(0, i as int));
        }
        k.own_hand = k.own_hand | bit(cards[i]);
        i += 1;
    }
    assert(cards@.subrange(0, cards@.len() as int) =~= cards@);
    k
}

/// Knowledge of player 0 holding card `card_deck_index`, known to be one of
/// `possible_identities`.
pub fn knowledge_with_empathy(card_deck_index: CardDeckIndex, possible_identities: VariantCardsBitField) -> (r: PlayerKnowledge)
    requires
        card_deck_index < MAX_CARDS_IN_DECK,
    ensures
        r.wf(),
        r@ == (KnowledgeView {
            inferred: PlayerKnowledge::new_spec(0).inferred.update(card_deck_index as int, Some(CardIdentityMask { bits: possible_identities })),
            own_hand: single(card_deck_index as int),
            ..PlayerKnowledge::new_spec(0)
        }),
{
    let mut k = PlayerKnowledge::new(0);
    let ghost k0 = k@;
    assert(k0 == PlayerKnowledge::new_spec(0)) by {
        assert(k0.inferred =~= PlayerKnowledge::new_spec(0).inferred);
        assert(k0.signals =~~= PlayerKnowledge::new_spec(0).signals);
        assert(k0.hypotheses =~= PlayerKnowledge::new_spec(0).hypotheses);
    }
    k.inferred_identities.set(card_deck_index as usize, Some(CardIdentityMask::from_bits(possible_identities)));
    k.own_hand = bit(card_deck_index);
    proof {
        assert(k@.signals == k0.signals);
        assert(k@.hypotheses == k0.hypotheses);
    }
    k
}

/// Narrowing a card never adds an identity to any card, and never leaves a card that had
/// an identity without one.
pub proof fn lemma_narrow_never_widens(kv: KnowledgeView, idx: int, mask: u64, v: &Variant, j: int, i: int)
    requires
        0 <= idx < kv.inferred.len(),
        0 <= j < kv.inferred.len(),
    ensures
        in_mask(kv.narrow(idx, mask, v).base(j, v), i) ==> in_mask(kv.base(j, v), i),
        kv.base(j, v) != 0 ==> kv.narrow(idx, mask, v).base(j, v) != 0,
{
    broadcast use group_bits;

    let cur = kv.base(idx, v);
    if cur & mask != 0 && j == idx {
        assert(kv.narrow(idx, mask, v).base(j, v) == cur & mask);
    }
}

/// Baking well-formed updates never adds an identity to any card.
pub proof fn lemma_bake_never_widens(kv: KnowledgeView, us: Seq<KnowledgeUpdate>, v: &Variant, j: int, i: int)
    requires
        kv.inferred.len() == MAX_CARDS_IN_DECK,
        updates_wf(us),
        0 <= j < MAX_CARDS_IN_DECK,
    ensures
        in_mask(kv.bake(us, v).base(j, v), i) ==> in_mask(kv.base(j, v), i),
        kv.bake(us, v).inferred.len() == MAX_CARDS_IN_DECK,
    decreases us.len(),
{
    if us.len() > 0 {
        let t = us.drop_last();
        assert forall|q: int| 0 <= q < t.len() implies (#[trigger] t[q]).target() < MAX_CARDS_IN_DECK by {
            assert(t[q] == us[q]);
        }
        lemma_bake_never_widens(kv, t, v, j, i);
        let prev = kv.bake(t, v);
        assert(us.last() == us[us.len() - 1]);
        match us.last() {
            KnowledgeUpdate::NarrowPossibilities { card_deck_index, mask } => {
                lemma_narrow_never_widens(prev, card_deck_index as int, mask, v, j, i);
            },
            KnowledgeUpdate::AddSignal { .. } => {},
        }
    }
}

/// The non-empty hypotheses are among the hypotheses.
pub proof fn lemma_non_empty_hyps_within(s: Seq<(u8, HypothesisView)>, k: int)
    requires
        0 <= k < non_empty_hyps(s).len(),
    ensures
        exists|m: int| 0 <= m < s.len() && #[trigger] s[m] == non_empty_hyps(s)[k],
    decreases s.len(),
{
    let t = s.drop_last();
    if !s.last().1.is_empty() && k == non_empty_hyps(t).len() {
        assert(s[s.len() - 1] == non_empty_hyps(s)[k]);
    } else {
        lemma_non_empty_hyps_within(t, k);
        let m = choose|m: int| 0 <= m < t.len() && #[trigger] t[m] == non_empty_hyps(t)[k];
        assert(s[m] == t[m]);
    }
}

/// Storing a cohort of well-formed hypotheses never adds an identity to any card.
pub proof fn lemma_after_cohort_never_widens(kv: KnowledgeView, cohort: HypothesisId, hv: Seq<(u8, HypothesisView)>, next_id: int, v: &Variant, j: int, i: int)
    requires
        kv.inferred.len() == MAX_CARDS_IN_DECK,
        forall|k: int| 0 <= k < hv.len() ==> updates_wf((#[trigger] hv[k]).1.immediate),
        0 <= j < MAX_CARDS_IN_DECK,
    ensures
        in_mask(after_cohort(kv, cohort, hv, next_id, v).base(j, v), i) ==> in_mask(kv.base(j, v), i),
        after_cohort(kv, cohort, hv, next_id, v).inferred.len() == MAX_CARDS_IN_DECK,
{
    let ne = non_empty_hyps(hv);
    if ne.len() == 1 && ne[0].1.trigger is None {
        lemma_non_empty_hyps_within(hv, 0);
        let m = choose|m: int| 0 <= m < hv.len() && #[trigger] hv[m] == ne[0];
        lemma_bake_never_widens(kv, ne[0].1.immediate, v, j, i);
    }
}

/// Resolving hypotheses never adds an identity to any card: confirmed hypotheses only
/// narrow the baseline.
pub proof fn lemma_resolution_never_widens(kv: KnowledgeView, actor: PlayerIndex, a: GameActionView, played: Option<VariantCardId>, v: &Variant, j: int, i: int)
    requires
        kv.inferred.len() == MAX_CARDS_IN_DECK,
        stored_wf(kv.hypotheses),
        0 <= j < MAX_CARDS_IN_DECK,
    ensures
        in_mask(resolved(kv, actor, a, played, v).base(j, v), i) ==> in_mask(kv.base(j, v), i),
        resolved(kv, actor, a, played, v).inferred.len() == MAX_CARDS_IN_DECK,
{
    lemma_bake_confirmed_never_widens(kv, kv.hypotheses, kv.hypotheses.len() as int, actor, a, played, v, j, i);
}

proof fn lemma_bake_confirmed_never_widens(kv: KnowledgeView, hs: Seq<TrackedView>, n: int, actor: PlayerIndex, a: GameActionView, played: Option<VariantCardId>, v: &Variant, j: int, i: int)
    requires
        kv.inferred.len() == MAX_CARDS_IN_DECK,
        stored_wf(hs),
        n <= hs.len(),
        0 <= j < MAX_CARDS_IN_DECK,
    ensures
        in_mask(bake_confirmed(kv, hs, n, actor, a, played, v).base(j, v), i) ==> in_mask(kv.base(j, v), i),
        bake_confirmed(kv, hs, n, actor, a, played, v).inferred.len() == MAX_CARDS_IN_DECK,
    decreases n,
{
    if n > 0 {
        lemma_bake_confirmed_never_widens(kv, hs, n - 1, actor, a, played, v, j, i);
        if confirms(hs[n - 1], actor, a, played) {
            lemma_bake_never_widens(bake_confirmed(kv, hs, n - 1, actor, a, played, v), hs[n - 1].immediate, v, j, i);
        }
    }
}

/// A card's effective identities are among its baseline identities: hypotheses only ever
/// narrow.
pub proof fn lemma_effective_within_baseline(kv: KnowledgeView, idx: int, i: int, v: &Variant)
    ensures
        kv.effective_allows(idx, i, v) ==> in_mask(kv.base(idx, v), i),
{
}

/// A cohort reduced to one hypothesis without trigger is baked into the baseline and takes
/// no hypothesis id.
pub proof fn lemma_lone_unconditional_is_baked(kv: KnowledgeView, cohort: HypothesisId, tier: u8, us: Seq<KnowledgeUpdate>, next_id: int, v: &Variant)
    requires
        us.len() > 0,
    ensures
        after_cohort(kv, cohort, seq![(tier, hyp_unconditional(us))], next_id, v) == kv.bake(us, v),
        ids_after_cohort(seq![(tier, hyp_unconditional(us))], next_id) == next_id,
{
    let s = seq![(tier, hyp_unconditional(us))];
    assert(s.drop_last() =~= Seq::<(u8, HypothesisView)>::empty());
    assert(non_empty_hyps(s.drop_last()) =~= Seq::<(u8, HypothesisView)>::empty());
    assert(non_empty_hyps(s) =~= s);
}

/// The survivors of a resolution are hypotheses that survive it.
proof fn lemma_survivors_survive(hs: Seq<TrackedView>, n: int, actor: PlayerIndex, a: GameActionView, played: Option<VariantCardId>, k: int)
    requires
        0 <= n <= hs.len(),
        0 <= k < survivors(hs, n, actor, a, played).len(),
    ensures
        exists|j: int| 0 <= j < n && hs[j] == survivors(hs, n, actor, a, played)[k] && survives(hs, hs[j], actor, a, played),
    decreases n,
{
    if n > 0 {
        let prev = survivors(hs, n - 1, actor, a, played);
        if survives(hs, hs[n - 1], actor, a, played) {
            if k < prev.len() {
                lemma_survivors_survive(hs, n - 1, actor, a, played, k);
            } else {
                assert(hs[n - 1] == survivors(hs, n, actor, a, played)[k]);
            }
        } else {
            lemma_survivors_survive(hs, n - 1, actor, a, played, k);
        }
    }
}

/// Once `actor` has acted, no pending hypothesis keyed on `actor` remains: each one was
/// either confirmed (then baked, and pruned with its siblings) or rejected.
pub proof fn lemma_resolution_settles_actor(kv: KnowledgeView, actor: PlayerIndex, a: GameActionView, played: Option<VariantCardId>, v: &Variant, k: int)
    requires
        0 <= k < resolved(kv, actor, a, played, v).hypotheses.len(),
    ensures
        !triggered_by(resolved(kv, actor, a, played, v).hypotheses[k], actor),
{
    let hs = kv.hypotheses;
    let sv = survivors(hs, hs.len() as int, actor, a, played);
    assert(resolved(kv, actor, a, played, v).hypotheses == promote(sv));
    lemma_survivors_survive(hs, hs.len() as int, actor, a, played, k);
    let j = choose|j: int| 0 <= j < hs.len() && hs[j] == sv[k] && survives(hs, hs[j], actor, a, played);
    if triggered_by(hs[j], actor) {
        if confirms(hs[j], actor, a, played) {
            assert(pruned(hs, hs[j], actor, a, played));
        }
    }
    assert(promote(sv)[k].trigger == sv[k].trigger);
}

} // verus!
