//! Card identities and identity masks.
use vstd::prelude::*;
use crate::bits::{group_bits, in_mask, single, is_singleton, singleton_of, bit, test_bit, low_mask, lemma_low_mask, lemma_ext};
use crate::game::variant::Variant;

verus! {

broadcast use group_bits;

/// Position of a card in the starting deck; doubles as a stable card handle.
pub type CardDeckIndex = u8;

/// Identity of a card within a variant: `suit * stacks_size + rank - 1`.
pub type VariantCardId = u8;

/// Set of variant card identities, one bit per identity.
pub type VariantCardsBitField = u64;

/// Set of deck positions, one bit per position.
pub type DeckCardsBitField = u64;

/// A set of possible identities for one card.
#[derive(Clone, Copy, Debug, PartialEq, Eq, Structural)]
pub struct CardIdentityMask {
    pub bits: u64,
}

impl CardIdentityMask {
    /// The identities of the mask as a bitfield.
    pub fn as_bits(&self) -> (r: u64)
        ensures
            r == self.bits,
    {
        self.bits
    }

    pub fn from_bits(bits: u64) -> (r: Self)
        ensures
            r.bits == bits,
    {
        CardIdentityMask { bits }
    }

    /// Every identity of the variant.
    pub fn all(variant: &Variant) -> (r: Self)
        requires
            variant.wf(),
        ensures
            r.bits == variant.all_ids_mask(),
    {
        CardIdentityMask { bits: variant.all_ids() }
    }

    /// The single identity `card_id`.
    pub fn known(card_id: VariantCardId) -> (r: Self)
        requires
            card_id < 64,
        ensures
            r.bits == single(card_id as int),
    {
        CardIdentityMask { bits: bit(card_id) }
    }

    /// Intersect with `mask`; `None` when nothing would remain.
    pub fn narrow(&self, mask: u64) -> (r: Option<Self>)
        ensures
            r == narrowed(self.bits, mask),
    {
        let b = self.bits & mask;
        if b == 0 {
            None
        } else {
            Some(CardIdentityMask { bits: b })
        }
    }

    /// The identity, when the mask holds exactly one.
    pub fn known_card_id(&self) -> (r: Option<VariantCardId>)
        ensures
            r == known_id(self.bits),
    {
        match singleton_of(self.bits) {
            Some(i) => {
                proof {
                    lemma_known_id_single(i as int);
                }
                Some(i)
            },
            None => None,
        }
    }

    /// Exactly one identity remains.
    pub fn is_exactly_known(&self) -> (r: bool)
        ensures
            r == is_singleton(self.bits),
    {
        singleton_of(self.bits).is_some()
    }

    pub fn contains(&self, card_id: VariantCardId) -> (r: bool)
        requires
            card_id < 64,
        ensures
            r == in_mask(self.bits, card_id as int),
    {
        test_bit(self.bits, card_id)
    }
}

/// `m & mask` as a mask, or `None` when that is empty.
pub open spec fn narrowed(m: u64, mask: u64) -> Option<CardIdentityMask> {
    if m & mask == 0 {
        None
    } else {
        Some(CardIdentityMask { bits: m & mask })
    }
}

/// The identity of a singleton mask.
pub open spec fn known_id(m: u64) -> Option<VariantCardId> {
    if is_singleton(m) {
        Some((choose|i: int| 0 <= i < 64 && m == single(i)) as u8)
    } else {
        None
    }
}

/// The mask of a single identity names that identity.
pub proof fn lemma_known_id_single(k: int)
    requires
        0 <= k < 64,
    ensures
        known_id(single(k)) == Some(k as u8),
{
    assert(is_singleton(single(k)));
    let c = choose|i: int| 0 <= i < 64 && single(k) == single(i);
    assert(in_mask(single(c), c));
}

/// A mask that names an identity holds that identity and no other.
pub proof fn lemma_known_id_bits(m: u64)
    ensures
        known_id(m) matches Some(k) ==> k < 64 && m == single(k as int) && (forall|j: int|
            in_mask(m, j) <==> j == k),
{
    if is_singleton(m) {
        let c = choose|i: int| 0 <= i < 64 && m == single(i);
        lemma_known_id_single(c);
    }
}

/// A set of possible identities that is never empty.
#[derive(Clone, Copy, Debug, PartialEq, Eq, Structural)]
pub struct Empathy {
    bits: u64,
}

impl Empathy {
    pub closed spec fn view(self) -> u64 {
        self.bits
    }

    #[verifier::type_invariant]
    closed spec fn inv(self) -> bool {
        self.bits != 0
    }

    /// `None` for the empty mask.
    pub fn from_bits(bits: u64) -> (r: Option<Self>)
        ensures
            r matches Some(e) ==> e@ == bits,
            r is None <==> bits == 0,
    {
        if bits == 0 {
            None
        } else {
            Some(Empathy { bits })
        }
    }

    pub fn as_bits(&self) -> (r: u64)
        ensures
            r == self@,
            r != 0,
    {
        proof {
            use_type_invariant(self);
        }
        self.bits
    }

    pub fn all(variant: &Variant) -> (r: Self)
        requires
            variant.wf(),
        ensures
            r@ == variant.all_ids_mask(),
    {
        let b = variant.all_ids();
        proof {
            variant.lemma_all_ids_nonzero();
        }
        Empathy { bits: b }
    }

    pub fn known(card_id: VariantCardId) -> (r: Self)
        requires
            card_id < 64,
        ensures
            r@ == single(card_id as int),
    {
        let b = bit(card_id);
        assert(in_mask(b, card_id as int));
        Empathy { bits: b }
    }

    /// Intersect with `mask`; `None` when nothing would remain.
    pub fn narrow(&self, mask: u64) -> (r: Option<Self>)
        ensures
            r matches Some(e) ==> e@ == self@ & mask,
            r is None <==> self@ & mask == 0,
    {
        let b = self.bits & mask;
        if b == 0 {
            None
        } else {
            Some(Empathy { bits: b })
        }
    }

    pub fn known_card_id(&self) -> (r: Option<VariantCardId>)
        ensures
            r == known_id(self@),
    {
        match singleton_of(self.bits) {
            Some(i) => {
                proof {
                    lemma_known_id_single(i as int);
                }
                Some(i)
            },
            None => None,
        }
    }

    pub fn is_exactly_known(&self) -> (r: bool)
        ensures
            r == is_singleton(self@),
    {
        singleton_of(self.bits).is_some()
    }
}

} // verus!
