//! A player's baseline knowledge without hypothesis tracking.
use vstd::prelude::*;
use crate::bits::{bit, single, test_bit};
use crate::engine::convention::hgroup::signal::Signal;
use crate::engine::knowledge::knowledge_update::{updates_wf, KnowledgeUpdate};
use crate::engine::knowledge::player_knowledge::SignalList;
use crate::game::card::{CardDeckIndex, CardIdentityMask, DeckCardsBitField, Empathy, VariantCardId, VariantCardsBitField};
use crate::game::table_state::TableState;
use crate::game::variant::Variant;
use crate::game::MAX_CARDS_IN_DECK;

verus! {

/// Baseline knowledge as mathematical values.
pub struct KnowledgeStateView {
    pub player_index: usize,
    /// Inferred identities of each deck position, as masks.
    pub inferred: Seq<Option<u64>>,
    pub signals: Seq<Seq<Signal>>,
    pub visible: u64,
    pub own_hand: u64,
}

impl KnowledgeStateView {
    /// Narrow card `idx` to `mask` (starting from every identity when nothing narrowed it);
    /// no effect when nothing would remain. A card left with one identity becomes visible.
    pub open spec fn narrow(self, idx: int, mask: u64, v: &Variant) -> KnowledgeStateView {
        let cur = match self.inferred[idx] {
            Some(m) => m,
            None => v.all_ids_mask(),
        };
        if cur & mask == 0 {
            self
        } else {
            KnowledgeStateView {
                inferred: self.inferred.update(idx, Some(cur & mask)),
                visible: if crate::bits::is_singleton(cur & mask) { self.visible | single(idx) } else { self.visible },
                ..self
            }
        }
    }

    pub open spec fn apply_update(self, u: KnowledgeUpdate, v: &Variant) -> KnowledgeStateView {
        match u {
            KnowledgeUpdate::NarrowPossibilities { card_deck_index, mask } => self.narrow(card_deck_index as int, mask, v),
            KnowledgeUpdate::AddSignal { card_deck_index, signal } => KnowledgeStateView {
                signals: self.signals.update(card_deck_index as int, self.signals[card_deck_index as int].push(signal)),
                ..self
            },
        }
    }

    /// The updates applied in order.
    pub open spec fn applied(self, us: Seq<KnowledgeUpdate>, v: &Variant) -> KnowledgeStateView
        decreases us.len(),
    {
        if us.len() == 0 {
            self
        } else {
            self.applied(us.drop_last(), v).apply_update(us.last(), v)
        }
    }

    /// Identities of card `idx` combining public empathy `g` with the inferred ones; an
    /// unseen card of the player's own hand gets only the inferred ones.
    pub open spec fn combined(self, idx: int, g: u64, v: &Variant) -> u64 {
        let inferred = match self.inferred[idx] {
            Some(m) => m,
            None => v.all_ids_mask(),
        };
        if crate::bits::in_mask(self.own_hand, idx) && !crate::bits::in_mask(self.visible, idx) {
            inferred
        } else {
            match self.inferred[idx] {
                Some(m) => if g & m != 0 { g & m } else { g },
                None => g,
            }
        }
    }
}

/// Per-player knowledge: convention-inferred identities, signals, and which cards the
/// player sees or holds.
pub struct PlayerKnowledgeState {
    pub player_index: usize,
    /// Identities inferred through conventions, per deck position.
    pub inferred_identities: Vec<Option<Empathy>>,
    /// Signals attached to each deck position.
    pub signals: Vec<SignalList>,
    /// Deck positions whose identity this player sees.
    pub visible_cards: DeckCardsBitField,
    /// Deck positions in this player's own hand.
    pub own_hand: DeckCardsBitField,
}

impl PlayerKnowledgeState {
    pub open spec fn view(&self) -> KnowledgeStateView {
        KnowledgeStateView {
            player_index: self.player_index,
            inferred: self.inferred_identities@.map_values(|e: Option<Empathy>| match e {
                Some(m) => Some(m@),
                None => None,
            }),
            signals: self.signals@.map_values(|l: SignalList| l@),
            visible: self.visible_cards,
            own_hand: self.own_hand,
        }
    }

    pub open spec fn wf(&self) -> bool {
        &&& self.inferred_identities@.len() == MAX_CARDS_IN_DECK
        &&& self.signals@.len() == MAX_CARDS_IN_DECK
    }

    /// No knowledge.
    pub fn new(player_index: usize) -> (r: Self)
        ensures
            r.wf(),
            r@.player_index == player_index,
            forall|k: int| 0 <= k < MAX_CARDS_IN_DECK ==> (#[trigger] r@.inferred[k]) is None,
            forall|k: int| 0 <= k < MAX_CARDS_IN_DECK ==> (#[trigger] r@.signals[k]).len() == 0,
            r@.visible == 0,
            r@.own_hand == 0,
    {
        let mut inferred: Vec<Option<Empathy>> = Vec::new();
        let mut signals: Vec<SignalList> = Vec::new();
        let mut k: usize = 0;
        while k < MAX_CARDS_IN_DECK
            invariant
                k <= MAX_CARDS_IN_DECK,
                inferred@.len() == k,
                signals@.len() == k,
                forall|q: int| 0 <= q < k ==> (#[trigger] inferred@[q]) is None,
                forall|q: int| 0 <= q < k ==> (#[trigger] signals@[q])@.len() == 0,
            decreases MAX_CARDS_IN_DECK - k,
        {
            inferred.push(None);
            signals.push(SignalList::new());
            k += 1;
        }
        PlayerKnowledgeState { player_index, inferred_identities: inferred, signals, visible_cards: 0, own_hand: 0 }
    }

    /// Empty knowledge, for padding.
    pub fn empty() -> (r: Self)
        ensures
            r.wf(),
            r@.player_index == 0,
            forall|k: int| 0 <= k < MAX_CARDS_IN_DECK ==> (#[trigger] r@.inferred[k]) is None,
            forall|k: int| 0 <= k < MAX_CARDS_IN_DECK ==> (#[trigger] r@.signals[k]).len() == 0,
            r@.visible == 0,
            r@.own_hand == 0,
    {
        Self::new(0)
    }

    /// The card is revealed as `card_id`: visible and known.
    pub fn update_with_revealed_card(&mut self, card_deck_index: CardDeckIndex, card_id: VariantCardId)
        requires
            old(self).wf(),
            card_deck_index < MAX_CARDS_IN_DECK,
            card_id < 64,
        ensures
            final(self).wf(),
            final(self)@ == (KnowledgeStateView {
                inferred: old(self)@.inferred.update(card_deck_index as int, Some(single(card_id as int))),
                visible: old(self)@.visible | single(card_deck_index as int),
                ..old(self)@
            }),
    {
        self.inferred_identities.set(card_deck_index as usize, Some(Empathy::known(card_id)));
        self.visible_cards = self.visible_cards | bit(card_deck_index);
        proof {
            assert(self@.inferred =~= old(self)@.inferred.update(card_deck_index as int, Some(single(card_id as int))));
            assert(self@.signals == old(self)@.signals);
        }
    }

    /// Narrow a card to the identities of `mask`; skipped when nothing would remain.
    pub fn narrow_inferred(&mut self, card_deck_index: CardDeckIndex, mask: VariantCardsBitField, variant: &Variant)
        requires
            old(self).wf(),
            variant.wf(),
            card_deck_index < MAX_CARDS_IN_DECK,
        ensures
            final(self).wf(),
            final(self)@ == old(self)@.narrow(card_deck_index as int, mask, variant),
    {
        let idx = card_deck_index as usize;
        let current = match self.inferred_identities[idx] {
            Some(e) => e,
            None => Empathy::all(variant),
        };
        if let Some(new_empathy) = current.narrow(mask) {
            self.inferred_identities.set(idx, Some(new_empathy));
            if new_empathy.is_exactly_known() {
                self.visible_cards = self.visible_cards | bit(card_deck_index);
            }
            proof {
                assert(self@.inferred =~= old(self)@.inferred.update(idx as int, Some(current@ & mask)));
                assert(self@.signals == old(self)@.signals);
            }
        }
    }

    /// Attach a signal to a card.
    pub fn add_signal(&mut self, card_deck_index: CardDeckIndex, signal: Signal)
        requires
            old(self).wf(),
            card_deck_index < MAX_CARDS_IN_DECK,
        ensures
            final(self).wf(),
            final(self)@ == (KnowledgeStateView {
                signals: old(self)@.signals.update(card_deck_index as int, old(self)@.signals[card_deck_index as int].push(signal)),
                ..old(self)@
            }),
    {
        let idx = card_deck_index as usize;
        let mut list = self.signals[idx].clone();
        list.push(signal);
        self.signals.set(idx, list);
        proof {
            assert(self@.signals =~= old(self)@.signals.update(idx as int, old(self)@.signals[idx as int].push(signal)));
            assert(self@.inferred == old(self)@.inferred);
        }
    }

    /// Apply updates in order.
    pub fn apply_updates(&mut self, updates: &[KnowledgeUpdate], variant: &Variant)
        requires
            old(self).wf(),
            variant.wf(),
            updates_wf(updates@),
        ensures
            final(self).wf(),
            final(self)@ == old(self)@.applied(updates@, variant),
    {
        let mut i: usize = 0;
        while i < updates.len()
            invariant
                self.wf(),
                variant.wf(),
                updates_wf(updates@),
                i <= updates@.len(),
                self@ == old(self)@.applied(updates@.subrange(0, i as int), variant),
            decreases updates.len() - i,
        {
            proof {
                let s = updates@.subrange(0, i + 1);
                assert(s.drop_last() =~= updates@.subrange(0, i as int));
                assert(s.last() == updates@[i as int]);
                assert(updates@[i as int].target() < MAX_CARDS_IN_DECK);
            }
            match updates[i] {
                KnowledgeUpdate::NarrowPossibilities { card_deck_index, mask } => self.narrow_inferred(card_deck_index, mask, variant),
                KnowledgeUpdate::AddSignal { card_deck_index, signal } => self.add_signal(card_deck_index, signal),
            }
            i += 1;
        }
        assert(updates@.subrange(0, updates@.len() as int) =~= updates@);
    }

    /// Inferred identities of a card, if any convention narrowed it.
    pub fn possible_identities(&self, card_deck_index: CardDeckIndex) -> (r: Option<Empathy>)
        requires
            self.wf(),
            card_deck_index < MAX_CARDS_IN_DECK,
        ensures
            r == self.inferred_identities@[card_deck_index as int],
    {
        self.inferred_identities[card_deck_index as usize]
    }

    /// Public empathy merged with the inferred identities; for an unseen card of the
    /// player's own hand only the inferred identities count.
    pub fn combined_possible_identities(&self, card_deck_index: CardDeckIndex, table_state: &TableState, variant: &Variant) -> (r: CardIdentityMask)
        requires
            self.wf(),
            variant.wf(),
            card_deck_index < MAX_CARDS_IN_DECK,
            table_state.deck_empathy@.len() == MAX_CARDS_IN_DECK,
        ensures
            r.bits == self@.combined(card_deck_index as int, table_state.empathy_of(card_deck_index as int), variant),
    {
        let idx = card_deck_index as usize;
        let is_own_unseen = test_bit(self.own_hand, card_deck_index) && !test_bit(self.visible_cards, card_deck_index);
        if is_own_unseen {
            return match self.inferred_identities[idx] {
                Some(e) => CardIdentityMask::from_bits(e.as_bits()),
                None => CardIdentityMask::all(variant),
            };
        }
        let g = table_state.deck_empathy[idx];
        match self.inferred_identities[idx] {
            Some(e) => {
                let b = g & e.as_bits();
                if b != 0 {
                    CardIdentityMask::from_bits(b)
                } else {
                    CardIdentityMask::from_bits(g)
                }
            },
            None => CardIdentityMask::from_bits(g),
        }
    }
}

} // verus!
