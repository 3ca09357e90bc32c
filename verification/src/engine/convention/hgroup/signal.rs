//! Convention signals attached to cards.
use vstd::prelude::*;
use crate::game::card::{CardDeckIndex, VariantCardId};
use crate::game::SlotIndex;

verus! {

/// Convention-generated annotations attached to specific cards in a player's hand.
#[derive(Clone, Copy, Debug, Eq, Hash, PartialEq, Structural)]
pub enum Signal {
    /// The holder is committed to playing this card.
    ///
    /// `committed_identity` is the identity the convention says this card has — the holder
    /// can use it to resolve their own empathy.
    Play { card_deck_index: CardDeckIndex, committed_identity: VariantCardId },
    Discard { slot_index: SlotIndex, turn: usize },
    Save { slot_index: SlotIndex, turn: usize },
}

} // verus!
