//! Variant rules: suits, stack size, copies of each card and the clues that touch them.
use vstd::prelude::*;
use crate::bits::{group_bits, in_mask, single, is_singleton, singleton_of, bit, test_bit, low_mask, lemma_low_mask, mask_of, lemma_mask_of_eq};
use crate::game::card::VariantCardId;
use crate::game::clue::{Clue, ClueType};

verus! {

broadcast use group_bits;

/// Cards per suit in every variant this engine plays.
pub const STACKS_SIZE: u8 = 5;

/// Most suits a variant can have.
pub const MAX_SUITS: u8 = 6;

/// Rules of a Hanabi variant.
///
/// Identities are `suit * stacks_size + rank - 1`. Only variants with five-card stacks
/// (ranks 1 to 5) and at most six suits are supported: every identity then fits a `u64`
/// mask and every deck position fits the 60-card deck.
#[derive(Clone, Debug)]
pub struct Variant {
    pub number_of_suits: u8,
    pub stacks_size: u8,
    /// Copies in the deck of each identity, indexed by identity.
    pub card_copies_count_by_id: Vec<u8>,
    /// The clue types players may give.
    pub clue_types: Vec<ClueType>,
}

impl Variant {
    /// A supported variant: one to six suits of five-card stacks, at most four copies of
    /// each identity.
    pub open spec fn wf(&self) -> bool {
        &&& 1 <= self.number_of_suits <= MAX_SUITS
        &&& self.stacks_size == STACKS_SIZE
        &&& self.card_copies_count_by_id@.len() == self.total_ids()
        &&& forall|i: int|
            0 <= i < self.total_ids() ==> #[trigger] self.card_copies_count_by_id@[i] <= 4
    }

    /// Number of distinct identities.
    pub open spec fn total_ids(&self) -> int {
        self.number_of_suits * 5
    }

    pub open spec fn copies(&self, id: int) -> int {
        self.card_copies_count_by_id@[id] as int
    }

    /// Mask of every identity.
    pub open spec fn all_ids_mask(&self) -> u64 {
        low_mask(self.total_ids())
    }

    /// Does `clue` touch a card of identity `id`.
    pub open spec fn clue_touches(&self, clue_type: ClueType, clue_value: int, id: int) -> bool {
        &&& 0 <= id < self.total_ids()
        &&& match clue_type {
            ClueType::Color => id / 5 == clue_value,
            ClueType::Rank => id % 5 == clue_value - 1,
        }
    }

    /// Mask of identities a clue touches.
    pub open spec fn clue_mask(&self, clue_type: ClueType, clue_value: int) -> u64
        recommends
            self.wf(),
    {
        mask_of(self.total_ids(), |i: int| self.clue_touches(clue_type, clue_value, i))
    }

    /// The standard five-suit variant without special suits.
    pub fn no_variant() -> (r: Self)
        ensures
            r.wf(),
            r.number_of_suits == 5,
            forall|i: int| 0 <= i < 25 ==> #[trigger] r.copies(i) == standard_copies(i),
    {
        Self::standard(5)
    }

    /// A variant of `number_of_suits` ordinary suits: three 1s, two each of 2–4, one 5.
    pub fn standard(number_of_suits: u8) -> (r: Self)
        requires
            1 <= number_of_suits <= MAX_SUITS,
        ensures
            r.wf(),
            r.number_of_suits == number_of_suits,
            forall|i: int| 0 <= i < r.total_ids() ==> #[trigger] r.copies(i) == standard_copies(i),
    {
        let total = number_of_suits * 5;
        let mut copies: Vec<u8> = Vec::new();
        let mut id: u8 = 0;
        while id < total
            invariant
                total == number_of_suits * 5,
                number_of_suits <= MAX_SUITS,
                id <= total,
                copies@.len() == id,
                forall|i: int| 0 <= i < id ==> #[trigger] copies@[i] as int == standard_copies(i),
            decreases total - id,
        {
            let rank_index = id % 5;
            let c: u8 = if rank_index == 0 {
                3
            } else if rank_index == 4 {
                1
            } else {
                2
            };
            copies.push(c);
            id += 1;
        }
        let mut clue_types = Vec::new();
        clue_types.push(ClueType::Color);
        clue_types.push(ClueType::Rank);
        Variant {
            number_of_suits,
            stacks_size: STACKS_SIZE,
            card_copies_count_by_id: copies,
            clue_types,
        }
    }

    /// Number of identities, as a machine integer.
    pub fn total_id_count(&self) -> (r: u8)
        requires
            self.wf(),
        ensures
            r == self.total_ids(),
            r <= 30,
    {
        self.number_of_suits * 5
    }

    /// Mask of every identity.
    pub fn all_ids(&self) -> (r: u64)
        requires
            self.wf(),
        ensures
            r == self.all_ids_mask(),
            forall|i: int| in_mask(r, i) <==> 0 <= i < self.total_ids(),
    {
        let n = self.total_id_count();
        proof {
            lemma_low_mask(n as u64);
            assert(n < 64 ==> (1u64 << (n as u64)) >= 1) by (bit_vector);
        }
        (1u64 << (n as u64)) - 1
    }

    pub proof fn lemma_all_ids_nonzero(&self)
        requires
            self.wf(),
        ensures
            self.all_ids_mask() != 0,
    {
        lemma_low_mask(self.total_ids() as u64);
        assert(in_mask(self.all_ids_mask(), 0));
    }

    /// Mask of identities touched by a clue of this type and value.
    pub fn empathy_by_clue(&self, clue_type: ClueType, clue_value: u8) -> (r: u64)
        requires
            self.wf(),
        ensures
            forall|i: int| #[trigger] in_mask(r, i) <==> self.clue_touches(clue_type, clue_value as int, i),
            r == self.clue_mask(clue_type, clue_value as int),
    {
        let total = self.total_id_count();
        let mut mask: u64 = 0;
        let mut id: u8 = 0;
        while id < total
            invariant
                self.wf(),
                total == self.total_ids(),
                id <= total,
                forall|i: int|
                    #[trigger] in_mask(mask, i) <==> (i < id && self.clue_touches(clue_type, clue_value as int, i)),
            decreases total - id,
        {
            let touches = match clue_type {
                ClueType::Color => id / 5 == clue_value,
                ClueType::Rank => clue_value >= 1 && id % 5 == clue_value - 1,
            };
            if touches {
                mask = mask | bit(id);
            }
            id += 1;
        }
        proof {
            lemma_mask_of_eq(mask, self.total_ids(), |i: int| self.clue_touches(clue_type, clue_value as int, i));
        }
        mask
    }

    /// Mask of identities touched by `clue`.
    pub fn empathy_for_clue(&self, clue: &Clue) -> (r: u64)
        requires
            self.wf(),
        ensures
            forall|i: int| #[trigger] in_mask(r, i) <==> self.clue_touches(clue.clue_type, clue.clue_value as int, i),
            r == self.clue_mask(clue.clue_type, clue.clue_value as int),
    {
        self.empathy_by_clue(clue.clue_type, clue.clue_value)
    }

    /// The card that must be played before `card_id`, if any.
    pub fn prerequisite(&self, card_id: VariantCardId) -> (r: Option<VariantCardId>)
        ensures
            r == prerequisite_of(card_id as int),
    {
        if card_id % 5 == 0 {
            None
        } else {
            Some(card_id - 1)
        }
    }

    /// The last card of its suit.
    pub fn is_stack_ending_card(&self, card_id: VariantCardId) -> (r: bool)
        ensures
            r == (card_id % 5 == 4),
    {
        card_id % 5 == 4
    }

    /// Rank `1..=stacks_size` of an identity.
    pub fn rank_of(&self, card_id: VariantCardId) -> (r: u8)
        ensures
            r == card_id % 5 + 1,
    {
        card_id % 5 + 1
    }

    /// Copies in the deck of an identity.
    pub fn copies_of(&self, card_id: VariantCardId) -> (r: u8)
        requires
            self.wf(),
            card_id < self.total_ids(),
        ensures
            r == self.copies(card_id as int),
            r <= 4,
    {
        self.card_copies_count_by_id[card_id as usize]
    }

    /// A copy of this variant.
    pub fn duplicate(&self) -> (r: Self)
        ensures
            r.same_as(*self),
    {
        let mut copies: Vec<u8> = Vec::new();
        let mut i: usize = 0;
        while i < self.card_copies_count_by_id.len()
            invariant
                i <= self.card_copies_count_by_id@.len(),
                copies@ == self.card_copies_count_by_id@.subrange(0, i as int),
            decreases self.card_copies_count_by_id.len() - i,
        {
            copies.push(self.card_copies_count_by_id[i]);
            i += 1;
            assert(copies@ =~= self.card_copies_count_by_id@.subrange(0, i as int));
        }
        let mut clue_types: Vec<ClueType> = Vec::new();
        let mut j: usize = 0;
        while j < self.clue_types.len()
            invariant
                j <= self.clue_types@.len(),
                clue_types@ == self.clue_types@.subrange(0, j as int),
            decreases self.clue_types.len() - j,
        {
            clue_types.push(self.clue_types[j]);
            j += 1;
            assert(clue_types@ =~= self.clue_types@.subrange(0, j as int));
        }
        assert(copies@ =~= self.card_copies_count_by_id@);
        assert(clue_types@ =~= self.clue_types@);
        Variant { number_of_suits: self.number_of_suits, stacks_size: self.stacks_size, card_copies_count_by_id: copies, clue_types }
    }

    /// The same suits, stack size, copies and clue types.
    pub open spec fn same_as(self, o: Variant) -> bool {
        &&& self.number_of_suits == o.number_of_suits
        &&& self.stacks_size == o.stacks_size
        &&& self.card_copies_count_by_id@ == o.card_copies_count_by_id@
        &&& self.clue_types@ == o.clue_types@
    }
}

/// Copies of an identity in a standard suit.
pub open spec fn standard_copies(id: int) -> int {
    if id % 5 == 0 {
        3
    } else if id % 5 == 4 {
        1
    } else {
        2
    }
}

/// The identity directly below `id` in its suit.
pub open spec fn prerequisite_of(id: int) -> Option<VariantCardId> {
    if id % 5 == 0 {
        None
    } else {
        Some((id - 1) as u8)
    }
}

} // verus!
