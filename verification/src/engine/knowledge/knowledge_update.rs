//! Knowledge updates and the hypotheses that carry them.
use vstd::prelude::*;
use crate::engine::convention::hgroup::signal::Signal;
use crate::game::card::{CardDeckIndex, VariantCardId, VariantCardsBitField};
use crate::game::{PlayerIndex, MAX_CARDS_IN_DECK};

verus! {

/// Identifier of a tracked hypothesis, assigned by the dispatcher when it stores a
/// hypothesis in a player's knowledge.
pub type HypothesisId = u32;

/// Grouping key for sibling pruning within a cohort (taken from domain keys such as deck
/// positions, not from the hypothesis id counter).
pub type AltGroupKey = u32;

/// Hypotheses emitted by a tech for a single observed action.
pub type HypothesisSet = Vec<Hypothesis>;

/// A discrete update to a player's knowledge, produced by convention interpretation.
#[derive(Clone, Copy, Debug, Eq, Hash, PartialEq, Structural)]
pub enum KnowledgeUpdate {
    /// Restrict the possible identities of a card to the given mask.
    NarrowPossibilities { card_deck_index: CardDeckIndex, mask: VariantCardsBitField },
    /// Attach a signal (play, discard, save) to a card.
    AddSignal { card_deck_index: CardDeckIndex, signal: Signal },
}

impl KnowledgeUpdate {
    pub open spec fn target(self) -> CardDeckIndex {
        match self {
            KnowledgeUpdate::NarrowPossibilities { card_deck_index, .. } => card_deck_index,
            KnowledgeUpdate::AddSignal { card_deck_index, .. } => card_deck_index,
        }
    }

    /// The deck position targeted by this update.
    pub fn card_deck_index(&self) -> (r: CardDeckIndex)
        ensures
            r == self.target(),
    {
        match self {
            KnowledgeUpdate::NarrowPossibilities { card_deck_index, .. } => *card_deck_index,
            KnowledgeUpdate::AddSignal { card_deck_index, .. } => *card_deck_index,
        }
    }
}

/// Every update targets a deck position.
pub open spec fn updates_wf(us: Seq<KnowledgeUpdate>) -> bool {
    forall|t: int| 0 <= t < us.len() ==> (#[trigger] us[t]).target() < MAX_CARDS_IN_DECK
}

/// Triggers that resolve a hypothesis.
#[derive(Clone, Copy, Debug, Eq, PartialEq, Structural)]
pub enum PendingTrigger {
    /// Resolves on `player`'s next action: confirms when that action plays
    /// `expected_card` (and, when `expected_identity` is set, the played card has that
    /// identity); rejects on any other action by `player`.
    ///
    /// `deadline_turn` is the turn by which `player` will have acted.
    BlindPlay {
        player: PlayerIndex,
        expected_card: CardDeckIndex,
        expected_identity: Option<VariantCardId>,
        deadline_turn: usize,
    },
}

impl PendingTrigger {
    /// A blind-play trigger gated on the deck position only.
    pub fn blind_play(player: PlayerIndex, expected_card: CardDeckIndex, deadline_turn: usize) -> (r: Self)
        ensures
            r == (PendingTrigger::BlindPlay { player, expected_card, expected_identity: None, deadline_turn }),
    {
        PendingTrigger::BlindPlay { player, expected_card, expected_identity: None, deadline_turn }
    }
}

/// One tech's interpretation of an observed action, from a single observer's POV.
///
/// A hypothesis carries the narrowings/signals it claims and, when provisional, the
/// [`PendingTrigger`] that confirms or rejects it. `alt_group` limits the siblings pruned on
/// confirmation to those sharing the group (`None`: the whole cohort).
#[derive(Debug)]
pub struct Hypothesis {
    pub immediate: Vec<KnowledgeUpdate>,
    pub trigger: Option<PendingTrigger>,
    pub alt_group: Option<AltGroupKey>,
}

/// A hypothesis with its updates as a sequence.
pub struct HypothesisView {
    pub immediate: Seq<KnowledgeUpdate>,
    pub trigger: Option<PendingTrigger>,
    pub alt_group: Option<AltGroupKey>,
}

impl HypothesisView {
    pub open spec fn is_empty(self) -> bool {
        self.immediate.len() == 0 && self.trigger is None
    }
}

/// The hypothesis that claims nothing.
pub open spec fn hyp_empty() -> HypothesisView {
    HypothesisView { immediate: Seq::empty(), trigger: None, alt_group: None }
}

/// A hypothesis that holds without confirmation.
pub open spec fn hyp_unconditional(immediate: Seq<KnowledgeUpdate>) -> HypothesisView {
    HypothesisView { immediate, trigger: None, alt_group: None }
}

/// A hypothesis pending `trigger`, pruning its whole cohort on confirmation.
pub open spec fn hyp_provisional(immediate: Seq<KnowledgeUpdate>, trigger: PendingTrigger) -> HypothesisView {
    HypothesisView { immediate, trigger: Some(trigger), alt_group: None }
}

/// A hypothesis pending `trigger`, pruning only its `alt_group` on confirmation.
pub open spec fn hyp_grouped(immediate: Seq<KnowledgeUpdate>, trigger: PendingTrigger, alt_group: AltGroupKey) -> HypothesisView {
    HypothesisView { immediate, trigger: Some(trigger), alt_group: Some(alt_group) }
}

/// Copy of a list of updates.
pub fn copy_updates(v: &Vec<KnowledgeUpdate>) -> (r: Vec<KnowledgeUpdate>)
    ensures
        r@ == v@,
{
    let mut r: Vec<KnowledgeUpdate> = Vec::new();
    let mut i: usize = 0;
    while i < v.len()
        invariant
            i <= v@.len(),
            r@ == v@.subrange(0, i as int),
        decreases v.len() - i,
    {
        r.push(v[i]);
        i += 1;
        assert(r@ == v@.subrange(0, i as int));
    }
    assert(v@.subrange(0, v@.len() as int) == v@);
    r
}

impl Hypothesis {
    pub open spec fn view(&self) -> HypothesisView {
        HypothesisView { immediate: self.immediate@, trigger: self.trigger, alt_group: self.alt_group }
    }

    #[must_use]
    pub fn empty() -> (r: Self)
        ensures
            r@ == hyp_empty(),
    {
        Hypothesis { immediate: Vec::new(), trigger: None, alt_group: None }
    }

    #[must_use]
    pub fn unconditional(immediate: Vec<KnowledgeUpdate>) -> (r: Self)
        ensures
            r@ == hyp_unconditional(immediate@),
    {
        Hypothesis { immediate, trigger: None, alt_group: None }
    }

    #[must_use]
    pub fn provisional(immediate: Vec<KnowledgeUpdate>, trigger: PendingTrigger) -> (r: Self)
        ensures
            r@ == hyp_provisional(immediate@, trigger),
    {
        Hypothesis { immediate, trigger: Some(trigger), alt_group: None }
    }

    /// Provisional hypothesis whose confirmation drops only same-`alt_group` siblings.
    #[must_use]
    pub fn provisional_grouped(
        immediate: Vec<KnowledgeUpdate>,
        trigger: PendingTrigger,
        alt_group: AltGroupKey,
    ) -> (r: Self)
        ensures
            r@ == hyp_grouped(immediate@, trigger, alt_group),
    {
        Hypothesis { immediate, trigger: Some(trigger), alt_group: Some(alt_group) }
    }

    #[must_use]
    pub fn is_empty(&self) -> (r: bool)
        ensures
            r == self@.is_empty(),
    {
        self.immediate.len() == 0 && self.trigger.is_none()
    }

    pub fn duplicate(&self) -> (r: Self)
        ensures
            r@ == self@,
    {
        Hypothesis { immediate: copy_updates(&self.immediate), trigger: self.trigger, alt_group: self.alt_group }
    }
}

impl Clone for Hypothesis {
    fn clone(&self) -> (r: Self)
        ensures
            r@ == self@,
    {
        self.duplicate()
    }
}

/// A hypothesis stored in a player's knowledge, with its dispatcher-assigned ids.
///
/// `cohort_id` is shared by the hypotheses that interpret the same observed action.
/// `tier` `0` is active; `1` is a dormant fallback, promoted once no tier-0 sibling remains.
/// Only tier-0 hypotheses contribute to the effective narrowing and to play signals.
#[derive(Debug)]
pub struct TrackedHypothesis {
    pub id: HypothesisId,
    pub cohort_id: HypothesisId,
    pub tier: u8,
    pub immediate: Vec<KnowledgeUpdate>,
    pub trigger: Option<PendingTrigger>,
    pub alt_group: Option<AltGroupKey>,
}

pub struct TrackedView {
    pub id: HypothesisId,
    pub cohort_id: HypothesisId,
    pub tier: u8,
    pub immediate: Seq<KnowledgeUpdate>,
    pub trigger: Option<PendingTrigger>,
    pub alt_group: Option<AltGroupKey>,
}

impl TrackedHypothesis {
    pub open spec fn view(&self) -> TrackedView {
        TrackedView {
            id: self.id,
            cohort_id: self.cohort_id,
            tier: self.tier,
            immediate: self.immediate@,
            trigger: self.trigger,
            alt_group: self.alt_group,
        }
    }

    pub fn duplicate(&self) -> (r: Self)
        ensures
            r@ == self@,
    {
        TrackedHypothesis {
            id: self.id,
            cohort_id: self.cohort_id,
            tier: self.tier,
            immediate: copy_updates(&self.immediate),
            trigger: self.trigger,
            alt_group: self.alt_group,
        }
    }
}

impl Clone for TrackedHypothesis {
    fn clone(&self) -> (r: Self)
        ensures
            r@ == self@,
    {
        self.duplicate()
    }
}

} // verus!
