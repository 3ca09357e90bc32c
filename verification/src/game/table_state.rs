//! The observable state of the table: hands, stacks, discard pile, tokens and public empathy.
use vstd::prelude::*;
use crate::bits::{group_bits, in_mask, single, bit, mask_of, lemma_mask_of, lemma_mask_of_eq, positions_mask, lemma_positions_mask, lemma_ext};
use crate::game::card::{CardDeckIndex, CardIdentityMask, VariantCardId};
use crate::game::clue::Clue;
use crate::game::static_game_data::StaticGameData;
use crate::game::variant::Variant;
use crate::game::{MAX_CARDS_IN_DECK, MAX_CLUE_TOKEN_COUNT};

verus! {

broadcast use group_bits;

/// `s` without any occurrence of `x`, order kept.
pub open spec fn remove_all(s: Seq<u8>, x: u8) -> Seq<u8>
    decreases s.len(),
{
    if s.len() == 0 {
        s
    } else if s.last() == x {
        remove_all(s.drop_last(), x)
    } else {
        remove_all(s.drop_last(), x).push(s.last())
    }
}

pub proof fn lemma_remove_all_contains(s: Seq<u8>, x: u8, y: u8)
    ensures
        remove_all(s, x).contains(y) <==> (s.contains(y) && y != x),
    decreases s.len(),
{
    if s.len() > 0 {
        lemma_remove_all_contains(s.drop_last(), x, y);
        assert(s == s.drop_last().push(s.last()));
        if s.drop_last().contains(y) {
            let k = choose|k: int| 0 <= k < s.drop_last().len() && s.drop_last()[k] == y;
            assert(s[k] == y);
        }
        if s.contains(y) && y != s.last() {
            let k = choose|k: int| 0 <= k < s.len() && s[k] == y;
            assert(s.drop_last()[k] == y);
        }
        if s.last() != x {
            let r = remove_all(s.drop_last(), x);
            if r.push(s.last()).contains(y) && y != s.last() {
                let k = choose|k: int| 0 <= k < r.push(s.last()).len() && r.push(s.last())[k] == y;
                assert(r[k] == y);
            }
            if r.contains(y) {
                let k = choose|k: int| 0 <= k < r.len() && r[k] == y;
                assert(r.push(s.last())[k] == y);
            }
            assert(r.push(s.last())[r.len() as int] == s.last());
        }
    }
}

/// Sum of the first `n` entries.
pub open spec fn sum_prefix(s: Seq<u8>, n: int) -> int
    decreases n,
{
    if n <= 0 {
        0
    } else {
        sum_prefix(s, n - 1) + s[n - 1]
    }
}

pub proof fn lemma_sum_prefix_bound(s: Seq<u8>, n: int, b: int)
    requires
        0 <= n <= s.len(),
        0 <= b,
        forall|i: int| 0 <= i < n ==> s[i] <= b,
    ensures
        0 <= sum_prefix(s, n) <= n * b,
    decreases n,
{
    if n > 0 {
        lemma_sum_prefix_bound(s, n - 1, b);
        assert((n - 1) * b + b == n * b) by (nonlinear_arith);
    }
}

/// Observable state of the table.
///
/// Hands list deck positions newest first (slot 1 first). Identities of cards are not kept
/// here, except through the public empathy of each deck position.
#[derive(Clone, Debug)]
pub struct TableState {
    /// One hand per player, newest card first.
    pub hands: Vec<Vec<CardDeckIndex>>,
    /// Number of cards played on each suit's stack.
    pub playing_stacks: Vec<u8>,
    /// Discarded copies of each identity.
    pub discard_pile: Vec<u8>,
    /// Whole clue tokens in the bank.
    pub clue_tokens: u8,
    pub strike_tokens: u8,
    /// Deck positions that a clue has touched.
    pub clue_touched_cards: u64,
    /// Public empathy of each deck position: identities consistent with every clue given
    /// and with the identity once revealed by a play or a discard.
    pub deck_empathy: Vec<u64>,
    /// Cards left in the draw pile.
    pub deck_size: u8,
    pub current_turn: usize,
    pub active_player_index: usize,
}

/// A table state as mathematical values.
#[verifier::ext_equal]
pub struct TableView {
    pub hands: Seq<Seq<CardDeckIndex>>,
    pub playing_stacks: Seq<u8>,
    pub discard_pile: Seq<u8>,
    pub clue_tokens: u8,
    pub strike_tokens: u8,
    pub clue_touched_cards: u64,
    pub deck_empathy: Seq<u64>,
    pub deck_size: u8,
    pub current_turn: usize,
    pub active_player_index: usize,
}

impl TableView {
    /// The active player's hand without `idx`.
    pub open spec fn without(self, idx: u8) -> TableView {
        TableView {
            hands: self.hands.update(self.active_player_index as int, remove_all(self.hands[self.active_player_index as int], idx)),
            ..self
        }
    }

    /// The active player draws `idx` into slot 1.
    pub open spec fn drawn(self, idx: u8) -> TableView {
        TableView {
            hands: self.hands.update(self.active_player_index as int, seq![idx] + self.hands[self.active_player_index as int]),
            deck_size: if self.deck_size > 0 { (self.deck_size - 1) as u8 } else { 0 },
            ..self
        }
    }

    /// The active player plays `idx`, a card of identity `id`: the stack advances (a
    /// completed stack returns a token), or a strike is earned and the card discarded.
    pub open spec fn played(self, idx: u8, id: u8) -> TableView {
        let v = self.without(idx);
        let empathy = v.deck_empathy.update(idx as int, single(id as int));
        let suit = id as int / 5;
        if self.playing_stacks[suit] == id % 5 {
            TableView {
                deck_empathy: empathy,
                playing_stacks: v.playing_stacks.update(suit, (self.playing_stacks[suit] + 1) as u8),
                clue_tokens: if id % 5 == 4 && self.clue_tokens < MAX_CLUE_TOKEN_COUNT { (self.clue_tokens + 1) as u8 } else { self.clue_tokens },
                ..v
            }
        } else {
            TableView {
                deck_empathy: empathy,
                strike_tokens: if self.strike_tokens < 255 { (self.strike_tokens + 1) as u8 } else { 255 },
                discard_pile: v.discard_pile.update(id as int, if self.discard_pile[id as int] < 255 { (self.discard_pile[id as int] + 1) as u8 } else { 255 }),
                ..v
            }
        }
    }

    /// The active player discards `idx`, a card of identity `id`, regaining a token.
    pub open spec fn discarded_as(self, idx: u8, id: u8) -> TableView {
        let v = self.without(idx);
        TableView {
            deck_empathy: v.deck_empathy.update(idx as int, single(id as int)),
            discard_pile: v.discard_pile.update(id as int, if self.discard_pile[id as int] < 255 { (self.discard_pile[id as int] + 1) as u8 } else { 255 }),
            clue_tokens: if self.clue_tokens < MAX_CLUE_TOKEN_COUNT { (self.clue_tokens + 1) as u8 } else { self.clue_tokens },
            ..v
        }
    }

    /// The active player discards `idx`, a card of unknown identity, regaining a token.
    pub open spec fn discarded_unknown(self, idx: u8) -> TableView {
        let v = self.without(idx);
        TableView { clue_tokens: if self.clue_tokens < MAX_CLUE_TOKEN_COUNT { (self.clue_tokens + 1) as u8 } else { self.clue_tokens }, ..v }
    }

    /// A clue of mask `clue_mask` touching `touched` is given to `receiver`.
    pub open spec fn clued(self, touched: Seq<u8>, receiver: int, clue_mask: u64) -> TableView {
        TableView {
            clue_tokens: if self.clue_tokens > 0 { (self.clue_tokens - 1) as u8 } else { 0 },
            clue_touched_cards: self.clue_touched_cards | positions_mask(touched),
            deck_empathy: Seq::new(
                self.deck_empathy.len(),
                |k: int| clue_narrowed_empathy(self.deck_empathy[k], k, touched, self.hands[receiver], clue_mask),
            ),
            ..self
        }
    }

    /// The turn passes to the next of `n` players.
    pub open spec fn advanced(self, n: int) -> TableView {
        TableView {
            active_player_index: ((self.active_player_index + 1) % n) as usize,
            current_turn: (self.current_turn + 1) as usize,
            ..self
        }
    }
}

/// Ranks of `base`'s suit from rank index `r` up that can still be played: the run stops
/// at the first rank whose copies are all discarded.
pub open spec fn reachable_run(ts: TableState, v: Variant, base: int, r: int) -> nat
    decreases 5 - r,
{
    if r >= 5 || r < 0 {
        0
    } else if ts.discarded(base + r) >= v.copies(base + r) {
        0
    } else {
        1 + reachable_run(ts, v, base, r + 1)
    }
}

/// Score reachable in each of suits `0..n`: for each suit, the ranks before the first
/// rank whose copies are all discarded.
pub open spec fn max_score_upto(ts: TableState, v: Variant, n: int) -> int
    decreases n,
{
    if n <= 0 {
        0
    } else {
        max_score_upto(ts, v, n - 1) + reachable_run(ts, v, (n - 1) * 5, 0)
    }
}

impl TableState {
    pub open spec fn view(&self) -> TableView {
        TableView {
            hands: self.hands@.map_values(|h: Vec<CardDeckIndex>| h@),
            playing_stacks: self.playing_stacks@,
            discard_pile: self.discard_pile@,
            clue_tokens: self.clue_tokens,
            strike_tokens: self.strike_tokens,
            clue_touched_cards: self.clue_touched_cards,
            deck_empathy: self.deck_empathy@,
            deck_size: self.deck_size,
            current_turn: self.current_turn,
            active_player_index: self.active_player_index,
        }
    }

    pub open spec fn wf(&self, sd: &StaticGameData) -> bool {
        &&& sd.wf()
        &&& self.hands@.len() == sd.number_of_players
        &&& forall|p: int, k: int|
            0 <= p < self.hands@.len() && 0 <= k < self.hands@[p]@.len()
                ==> #[trigger] self.hands@[p]@[k] < MAX_CARDS_IN_DECK
        &&& self.playing_stacks@.len() == sd.variant.number_of_suits
        &&& forall|s: int| 0 <= s < self.playing_stacks@.len() ==> #[trigger] self.playing_stacks@[s] <= 5
        &&& self.discard_pile@.len() == sd.variant.total_ids()
        &&& self.clue_tokens <= MAX_CLUE_TOKEN_COUNT
        &&& self.deck_empathy@.len() == MAX_CARDS_IN_DECK
        &&& self.active_player_index < sd.number_of_players
    }

    pub open spec fn hand(&self, p: int) -> Seq<CardDeckIndex> {
        self.hands@[p]@
    }

    pub open spec fn stack(&self, suit: int) -> int {
        self.playing_stacks@[suit] as int
    }

    /// A copy of `id` is on its stack.
    pub open spec fn is_played(&self, id: int) -> bool {
        id % 5 < self.stack(id / 5)
    }

    /// `id` is the next card of its stack.
    pub open spec fn is_playable_id(&self, v: &Variant, id: int) -> bool {
        0 <= id < v.total_ids() && self.stack(id / 5) == id % 5
    }

    pub open spec fn playable_mask(&self, v: &Variant) -> u64 {
        mask_of(v.total_ids(), |i: int| self.is_playable_id(v, i))
    }

    pub open spec fn played_mask(&self, v: &Variant) -> u64 {
        mask_of(v.total_ids(), |i: int| self.is_played(i))
    }

    pub open spec fn discarded(&self, id: int) -> int {
        self.discard_pile@[id] as int
    }

    pub open spec fn touched(&self, idx: int) -> bool {
        in_mask(self.clue_touched_cards, idx)
    }

    pub open spec fn empathy_of(&self, idx: int) -> u64 {
        self.deck_empathy@[idx]
    }

    pub open spec fn score_spec(&self) -> int {
        sum_prefix(self.playing_stacks@, self.playing_stacks@.len() as int)
    }

    /// A fresh table: empty hands and stacks, full token bank, every identity possible.
    pub open spec fn fresh(&self, sd: &StaticGameData) -> bool {
        &&& forall|p: int| 0 <= p < sd.number_of_players ==> (#[trigger] self.hand(p)).len() == 0
        &&& forall|s: int| 0 <= s < sd.variant.number_of_suits ==> #[trigger] self.stack(s) == 0
        &&& forall|i: int| 0 <= i < sd.variant.total_ids() ==> #[trigger] self.discarded(i) == 0
        &&& forall|k: int| 0 <= k < MAX_CARDS_IN_DECK ==> #[trigger] self.empathy_of(k) == sd.variant.all_ids_mask()
        &&& self.clue_tokens == MAX_CLUE_TOKEN_COUNT
        &&& self.strike_tokens == 0
        &&& self.clue_touched_cards == 0
        &&& self.deck_size == sum_prefix(sd.variant.card_copies_count_by_id@, sd.variant.total_ids())
        &&& self.current_turn == 0
        &&& self.active_player_index == 0
    }

    /// Fresh table: empty hands and stacks, full token bank, every identity possible.
    pub fn new(sd: &StaticGameData) -> (r: Self)
        requires
            sd.wf(),
        ensures
            r.wf(sd),
            r.fresh(sd),
            forall|p: int| 0 <= p < sd.number_of_players ==> (#[trigger] r.hand(p)).len() == 0,
            forall|s: int| 0 <= s < sd.variant.number_of_suits ==> #[trigger] r.stack(s) == 0,
            forall|i: int| 0 <= i < sd.variant.total_ids() ==> #[trigger] r.discarded(i) == 0,
            forall|k: int| 0 <= k < MAX_CARDS_IN_DECK ==> #[trigger] r.empathy_of(k) == sd.variant.all_ids_mask(),
            r.clue_tokens == MAX_CLUE_TOKEN_COUNT,
            r.strike_tokens == 0,
            r.clue_touched_cards == 0,
            r.deck_size == sum_prefix(sd.variant.card_copies_count_by_id@, sd.variant.total_ids()),
            r.current_turn == 0,
            r.active_player_index == 0,
    {
        let n = sd.number_of_players as usize;
        let mut hands: Vec<Vec<CardDeckIndex>> = Vec::new();
        let mut p: usize = 0;
        while p < n
            invariant
                p <= n,
                hands@.len() == p,
                forall|q: int| 0 <= q < p ==> (#[trigger] hands@[q])@.len() == 0,
            decreases n - p,
        {
            hands.push(Vec::new());
            p += 1;
        }
        let suits = sd.variant.number_of_suits;
        let mut stacks: Vec<u8> = Vec::new();
        let mut s: u8 = 0;
        while s < suits
            invariant
                s <= suits,
                stacks@.len() == s,
                forall|q: int| 0 <= q < s ==> #[trigger] stacks@[q] == 0,
            decreases suits - s,
        {
            stacks.push(0);
            s += 1;
        }
        let total = sd.variant.total_id_count();
        let mut discards: Vec<u8> = Vec::new();
        let mut deck_size: u8 = 0;
        let mut i: u8 = 0;
        while i < total
            invariant
                sd.wf(),
                total == sd.variant.total_ids(),
                i <= total,
                discards@.len() == i,
                forall|q: int| 0 <= q < i ==> #[trigger] discards@[q] == 0,
                deck_size == sum_prefix(sd.variant.card_copies_count_by_id@, i as int),
            decreases total - i,
        {
            discards.push(0);
            proof {
                lemma_sum_prefix_bound(sd.variant.card_copies_count_by_id@, i + 1, 4);
            }
            deck_size = deck_size + sd.variant.copies_of(i);
            i += 1;
        }
        let all = sd.variant.all_ids();
        let mut empathy: Vec<u64> = Vec::new();
        let mut k: usize = 0;
        while k < MAX_CARDS_IN_DECK
            invariant
                k <= MAX_CARDS_IN_DECK,
                empathy@.len() == k,
                forall|q: int| 0 <= q < k ==> #[trigger] empathy@[q] == all,
            decreases MAX_CARDS_IN_DECK - k,
        {
            empathy.push(all);
            k += 1;
        }
        TableState {
            hands,
            playing_stacks: stacks,
            discard_pile: discards,
            clue_tokens: MAX_CLUE_TOKEN_COUNT,
            strike_tokens: 0,
            clue_touched_cards: 0,
            deck_empathy: empathy,
            deck_size,
            current_turn: 0,
            active_player_index: 0,
        }
    }

    /// A copy of the table state.
    pub fn duplicate(&self) -> (r: Self)
        ensures
            r@ == self@,
            forall|sd: StaticGameData| self.wf(&sd) ==> #[trigger] r.wf(&sd),
    {
        let mut hands: Vec<Vec<CardDeckIndex>> = Vec::new();
        let mut p: usize = 0;
        while p < self.hands.len()
            invariant
                p <= self.hands@.len(),
                hands@.len() == p,
                forall|q: int| 0 <= q < p ==> (#[trigger] hands@[q])@ == self.hands@[q]@,
            decreases self.hands.len() - p,
        {
            hands.push(copy_bytes(&self.hands[p]));
            p += 1;
        }
        let r = TableState {
            hands,
            playing_stacks: copy_bytes(&self.playing_stacks),
            discard_pile: copy_bytes(&self.discard_pile),
            clue_tokens: self.clue_tokens,
            strike_tokens: self.strike_tokens,
            clue_touched_cards: self.clue_touched_cards,
            deck_empathy: copy_words(&self.deck_empathy),
            deck_size: self.deck_size,
            current_turn: self.current_turn,
            active_player_index: self.active_player_index,
        };
        assert(r@ =~= self@);
        r
    }

    pub fn active_player_index(&self) -> (r: usize)
        ensures
            r == self.active_player_index,
    {
        self.active_player_index
    }

    pub fn whole_clue_tokens_count(&self) -> (r: u8)
        ensures
            r == self.clue_tokens,
    {
        self.clue_tokens
    }

    pub fn stack_size(&self, sd: &StaticGameData, suit: usize) -> (r: u8)
        requires
            self.wf(sd),
            suit < sd.variant.number_of_suits,
        ensures
            r == self.stack(suit as int),
            r <= 5,
    {
        self.playing_stacks[suit]
    }

    /// A copy of `card_id` is on the stacks.
    pub fn contains_card_with_id(&self, sd: &StaticGameData, card_id: VariantCardId) -> (r: bool)
        requires
            self.wf(sd),
            card_id < sd.variant.total_ids(),
        ensures
            r == self.is_played(card_id as int),
    {
        card_id % 5 < self.playing_stacks[(card_id / 5) as usize]
    }

    /// Discarded copies of `card_id`.
    pub fn copies_discarded(&self, sd: &StaticGameData, card_id: VariantCardId) -> (r: u8)
        requires
            self.wf(sd),
            card_id < sd.variant.total_ids(),
        ensures
            r == self.discarded(card_id as int),
    {
        self.discard_pile[card_id as usize]
    }

    /// Public empathy of a deck position.
    pub fn get_global_empathy(&self, sd: &StaticGameData, card_deck_index: CardDeckIndex) -> (r: CardIdentityMask)
        requires
            self.wf(sd),
            card_deck_index < MAX_CARDS_IN_DECK,
        ensures
            r.bits == self.empathy_of(card_deck_index as int),
    {
        CardIdentityMask { bits: self.deck_empathy[card_deck_index as usize] }
    }

    /// Is a deck position clue-touched.
    pub fn is_touched(&self, card_deck_index: CardDeckIndex) -> (r: bool)
        requires
            card_deck_index < 64,
        ensures
            r == self.touched(card_deck_index as int),
    {
        crate::bits::test_bit(self.clue_touched_cards, card_deck_index)
    }

    /// Identities that could be played right now.
    pub fn playable_cards(&self, sd: &StaticGameData) -> (r: u64)
        requires
            self.wf(sd),
        ensures
            r == self.playable_mask(&sd.variant),
            forall|i: int| #[trigger] in_mask(r, i) <==> self.is_playable_id(&sd.variant, i),
    {
        let suits = sd.variant.number_of_suits;
        let mut mask: u64 = 0;
        let mut s: u8 = 0;
        while s < suits
            invariant
                self.wf(sd),
                suits == sd.variant.number_of_suits,
                s <= suits,
                forall|i: int| #[trigger] in_mask(mask, i) <==> (self.is_playable_id(&sd.variant, i) && i / 5 < s),
            decreases suits - s,
        {
            let top = self.playing_stacks[s as usize];
            if top < 5 {
                let id = s * 5 + top;
                mask = mask | bit(id);
            }
            s += 1;
        }
        proof {
            lemma_mask_of_eq(mask, sd.variant.total_ids(), |i: int| self.is_playable_id(&sd.variant, i));
        }
        mask
    }

    /// Identities with a copy on the stacks.
    pub fn played_cards(&self, sd: &StaticGameData) -> (r: u64)
        requires
            self.wf(sd),
        ensures
            r == self.played_mask(&sd.variant),
            forall|i: int| #[trigger] in_mask(r, i) <==> (0 <= i < sd.variant.total_ids() && self.is_played(i)),
    {
        let total = sd.variant.total_id_count();
        let mut mask: u64 = 0;
        let mut id: u8 = 0;
        while id < total
            invariant
                self.wf(sd),
                total == sd.variant.total_ids(),
                id <= total,
                forall|i: int| #[trigger] in_mask(mask, i) <==> (0 <= i < id && self.is_played(i)),
            decreases total - id,
        {
            if self.contains_card_with_id(sd, id) {
                mask = mask | bit(id);
            }
            id += 1;
        }
        proof {
            lemma_mask_of_eq(mask, sd.variant.total_ids(), |i: int| self.is_played(i));
        }
        mask
    }

    /// Cards on the stacks.
    pub fn score(&self, sd: &StaticGameData) -> (r: u8)
        requires
            self.wf(sd),
        ensures
            r == self.score_spec(),
    {
        let n = self.playing_stacks.len();
        let mut total: u8 = 0;
        let mut s: usize = 0;
        while s < n
            invariant
                self.wf(sd),
                n == self.playing_stacks@.len(),
                s <= n,
                total == sum_prefix(self.playing_stacks@, s as int),
            decreases n - s,
        {
            proof {
                lemma_sum_prefix_bound(self.playing_stacks@, s + 1, 5);
            }
            total = total + self.playing_stacks[s];
            s += 1;
        }
        total
    }

    /// The best score still reachable: in each suit, the ranks below the first rank whose
    /// copies are all discarded.
    pub fn max_achievable_score(&self, sd: &StaticGameData) -> (r: u8)
        requires
            self.wf(sd),
        ensures
            r == max_score_upto(*self, sd.variant, sd.variant.number_of_suits as int),
    {
        let v = &sd.variant;
        let suits = v.number_of_suits;
        let mut total: u8 = 0;
        let mut s: u8 = 0;
        while s < suits
            invariant
                self.wf(sd),
                *v == sd.variant,
                suits == v.number_of_suits,
                suits <= 6,
                s <= suits,
                total == max_score_upto(*self, *v, s as int),
                total <= s * 5,
            decreases suits - s,
        {
            let base = s * 5;
            let mut run: u8 = 0;
            let mut r: u8 = 0;
            while r < 5
                invariant
                    self.wf(sd),
                    *v == sd.variant,
                    s < suits,
                    suits == v.number_of_suits,
                    base == s * 5,
                    r <= 5,
                    run == r,
                    run + reachable_run(*self, *v, base as int, r as int) == reachable_run(*self, *v, base as int, 0),
                ensures
                    run == reachable_run(*self, *v, base as int, 0),
                    run <= 5,
                decreases 5 - r,
            {
                if self.copies_discarded(sd, base + r) >= v.copies_of(base + r) {
                    assert(reachable_run(*self, *v, base as int, r as int) == 0);
                    break;
                }
                run += 1;
                r += 1;
            }
            total = total + run;
            s += 1;
        }
        total
    }

    /// The active player draws the card at `card_deck_index` into slot 1.
    pub fn update_with_draw_action(&mut self, sd: &StaticGameData, card_deck_index: CardDeckIndex)
        requires
            old(self).wf(sd),
            card_deck_index < MAX_CARDS_IN_DECK,
        ensures
            final(self).wf(sd),
            final(self).hand(old(self).active_player_index as int) == seq![card_deck_index] + old(self).hand(old(self).active_player_index as int),
            forall|p: int| 0 <= p < old(self).hands@.len() && p != old(self).active_player_index ==> #[trigger] final(self).hands@[p] == old(self).hands@[p],
            final(self).deck_size == if old(self).deck_size > 0 { old(self).deck_size - 1 } else { 0 },
            final(self).playing_stacks == old(self).playing_stacks,
            final(self).discard_pile == old(self).discard_pile,
            final(self).deck_empathy == old(self).deck_empathy,
            final(self).clue_touched_cards == old(self).clue_touched_cards,
            final(self).clue_tokens == old(self).clue_tokens,
            final(self).strike_tokens == old(self).strike_tokens,
            final(self).current_turn == old(self).current_turn,
            final(self).active_player_index == old(self).active_player_index,
            final(self)@ == old(self)@.drawn(card_deck_index),
    {
        let p = self.active_player_index;
        let mut hand: Vec<CardDeckIndex> = Vec::new();
        hand.push(card_deck_index);
        let old_hand = &self.hands[p];
        let mut k: usize = 0;
        while k < old_hand.len()
            invariant
                hand@ == seq![card_deck_index] + old_hand@.subrange(0, k as int),
                k <= old_hand@.len(),
            decreases old_hand.len() - k,
        {
            hand.push(old_hand[k]);
            k += 1;
            assert(old_hand@.subrange(0, k as int) == old_hand@.subrange(0, k - 1).push(old_hand@[k - 1]));
        }
        assert(old_hand@.subrange(0, old_hand@.len() as int) == old_hand@);
        self.hands.set(p, hand);
        if self.deck_size > 0 {
            self.deck_size = self.deck_size - 1;
        }
        assert(self@ =~= old(self)@.drawn(card_deck_index));
    }

    /// Remove a card from player `p`'s hand.
    fn remove_from_hand(&mut self, sd: &StaticGameData, p: usize, card_deck_index: CardDeckIndex)
        requires
            old(self).wf(sd),
            p < sd.number_of_players,
        ensures
            final(self).wf(sd),
            final(self).hand(p as int) == remove_all(old(self).hand(p as int), card_deck_index),
            forall|q: int| 0 <= q < old(self).hands@.len() && q != p ==> #[trigger] final(self).hands@[q] == old(self).hands@[q],
            final(self).playing_stacks == old(self).playing_stacks,
            final(self).discard_pile == old(self).discard_pile,
            final(self).deck_empathy == old(self).deck_empathy,
            final(self).clue_touched_cards == old(self).clue_touched_cards,
            final(self).clue_tokens == old(self).clue_tokens,
            final(self).strike_tokens == old(self).strike_tokens,
            final(self).deck_size == old(self).deck_size,
            final(self).current_turn == old(self).current_turn,
            final(self).active_player_index == old(self).active_player_index,
    {
        let old_hand = &self.hands[p];
        let mut hand: Vec<CardDeckIndex> = Vec::new();
        let mut k: usize = 0;
        while k < old_hand.len()
            invariant
                hand@ == remove_all(old_hand@.subrange(0, k as int), card_deck_index),
                k <= old_hand@.len(),
                forall|j: int| 0 <= j < old_hand@.len() ==> #[trigger] old_hand@[j] < MAX_CARDS_IN_DECK,
            decreases old_hand.len() - k,
        {
            let c = old_hand[k];
            assert(old_hand@.subrange(0, k + 1).drop_last() == old_hand@.subrange(0, k as int));
            if c != card_deck_index {
                hand.push(c);
            }
            k += 1;
        }
        assert(old_hand@.subrange(0, old_hand@.len() as int) == old_hand@);
        proof {
            assert forall|j: int| 0 <= j < hand@.len() implies #[trigger] hand@[j] < MAX_CARDS_IN_DECK by {
                lemma_remove_all_contains(old_hand@, card_deck_index, hand@[j]);
                assert(hand@.contains(hand@[j]));
            }
        }
        self.hands.set(p, hand);
    }

    /// The active player plays a card whose identity is `card_id`: it advances its stack
    /// (returning a clue token when it completes the stack) or earns a strike and is discarded.
    pub fn update_with_play_action_of_specific_card(
        &mut self,
        sd: &StaticGameData,
        card_deck_index: CardDeckIndex,
        card_id: VariantCardId,
    )
        requires
            old(self).wf(sd),
            card_deck_index < MAX_CARDS_IN_DECK,
            card_id < sd.variant.total_ids(),
        ensures
            final(self).wf(sd),
            final(self).hand(old(self).active_player_index as int) == remove_all(old(self).hand(old(self).active_player_index as int), card_deck_index),
            forall|q: int| 0 <= q < old(self).hands@.len() && q != old(self).active_player_index ==> #[trigger] final(self).hands@[q] == old(self).hands@[q],
            final(self).deck_empathy@ == old(self).deck_empathy@.update(card_deck_index as int, single(card_id as int)),
            old(self).is_playable_id(&sd.variant, card_id as int) ==> {
                &&& final(self).playing_stacks@ == old(self).playing_stacks@.update(card_id as int / 5, (old(self).stack(card_id as int / 5) + 1) as u8)
                &&& final(self).strike_tokens == old(self).strike_tokens
                &&& final(self).discard_pile == old(self).discard_pile
                &&& final(self).clue_tokens == if card_id % 5 == 4 && old(self).clue_tokens < MAX_CLUE_TOKEN_COUNT { (old(self).clue_tokens + 1) as u8 } else { old(self).clue_tokens }
            },
            !old(self).is_playable_id(&sd.variant, card_id as int) ==> {
                &&& final(self).playing_stacks == old(self).playing_stacks
                &&& final(self).strike_tokens == if old(self).strike_tokens < 255 { (old(self).strike_tokens + 1) as u8 } else { 255 }
                &&& final(self).discard_pile@ == old(self).discard_pile@.update(card_id as int, if old(self).discarded(card_id as int) < 255 { (old(self).discarded(card_id as int) + 1) as u8 } else { 255 })
                &&& final(self).clue_tokens == old(self).clue_tokens
            },
            final(self).clue_touched_cards == old(self).clue_touched_cards,
            final(self).deck_size == old(self).deck_size,
            final(self).current_turn == old(self).current_turn,
            final(self).active_player_index == old(self).active_player_index,
            final(self)@ == old(self)@.played(card_deck_index, card_id),
    {
        let p = self.active_player_index;
        self.remove_from_hand(sd, p, card_deck_index);
        self.deck_empathy.set(card_deck_index as usize, bit(card_id));
        let suit = (card_id / 5) as usize;
        let top = self.playing_stacks[suit];
        if top == card_id % 5 {
            self.playing_stacks.set(suit, top + 1);
            if card_id % 5 == 4 && self.clue_tokens < MAX_CLUE_TOKEN_COUNT {
                self.clue_tokens = self.clue_tokens + 1;
            }
        } else {
            if self.strike_tokens < 255 {
                self.strike_tokens = self.strike_tokens + 1;
            }
            let d = self.discard_pile[card_id as usize];
            if d < 255 {
                self.discard_pile.set(card_id as usize, d + 1);
            }
        }
        assert(self@ =~= old(self)@.played(card_deck_index, card_id));
    }

    /// The active player plays a card of unknown identity: it only leaves the hand.
    pub fn update_with_play_action(&mut self, sd: &StaticGameData, card_deck_index: CardDeckIndex)
        requires
            old(self).wf(sd),
        ensures
            final(self).wf(sd),
            final(self).hand(old(self).active_player_index as int) == remove_all(old(self).hand(old(self).active_player_index as int), card_deck_index),
            forall|q: int| 0 <= q < old(self).hands@.len() && q != old(self).active_player_index ==> #[trigger] final(self).hands@[q] == old(self).hands@[q],
            final(self).playing_stacks == old(self).playing_stacks,
            final(self).discard_pile == old(self).discard_pile,
            final(self).deck_empathy == old(self).deck_empathy,
            final(self).clue_touched_cards == old(self).clue_touched_cards,
            final(self).clue_tokens == old(self).clue_tokens,
            final(self).strike_tokens == old(self).strike_tokens,
            final(self).deck_size == old(self).deck_size,
            final(self).current_turn == old(self).current_turn,
            final(self).active_player_index == old(self).active_player_index,
            final(self)@ == old(self)@.without(card_deck_index),
    {
        let p = self.active_player_index;
        self.remove_from_hand(sd, p, card_deck_index);
        assert(self@ =~= old(self)@.without(card_deck_index));
    }

    /// The active player discards a card whose identity is `card_id`, regaining a clue token.
    pub fn update_with_discard_action_of_specific_card(
        &mut self,
        sd: &StaticGameData,
        card_deck_index: CardDeckIndex,
        card_id: VariantCardId,
    )
        requires
            old(self).wf(sd),
            card_deck_index < MAX_CARDS_IN_DECK,
            card_id < sd.variant.total_ids(),
        ensures
            final(self).wf(sd),
            final(self).hand(old(self).active_player_index as int) == remove_all(old(self).hand(old(self).active_player_index as int), card_deck_index),
            forall|q: int| 0 <= q < old(self).hands@.len() && q != old(self).active_player_index ==> #[trigger] final(self).hands@[q] == old(self).hands@[q],
            final(self).deck_empathy@ == old(self).deck_empathy@.update(card_deck_index as int, single(card_id as int)),
            final(self).discard_pile@ == old(self).discard_pile@.update(card_id as int, if old(self).discarded(card_id as int) < 255 { (old(self).discarded(card_id as int) + 1) as u8 } else { 255 }),
            final(self).clue_tokens == if old(self).clue_tokens < MAX_CLUE_TOKEN_COUNT { (old(self).clue_tokens + 1) as u8 } else { old(self).clue_tokens },
            final(self).playing_stacks == old(self).playing_stacks,
            final(self).strike_tokens == old(self).strike_tokens,
            final(self).clue_touched_cards == old(self).clue_touched_cards,
            final(self).deck_size == old(self).deck_size,
            final(self).current_turn == old(self).current_turn,
            final(self).active_player_index == old(self).active_player_index,
            final(self)@ == old(self)@.discarded_as(card_deck_index, card_id),
    {
        let p = self.active_player_index;
        self.remove_from_hand(sd, p, card_deck_index);
        self.deck_empathy.set(card_deck_index as usize, bit(card_id));
        let d = self.discard_pile[card_id as usize];
        if d < 255 {
            self.discard_pile.set(card_id as usize, d + 1);
        }
        if self.clue_tokens < MAX_CLUE_TOKEN_COUNT {
            self.clue_tokens = self.clue_tokens + 1;
        }
        assert(self@ =~= old(self)@.discarded_as(card_deck_index, card_id));
    }

    /// The active player discards a card of unknown identity, regaining a clue token.
    pub fn update_with_discard_action(&mut self, sd: &StaticGameData, card_deck_index: CardDeckIndex)
        requires
            old(self).wf(sd),
        ensures
            final(self).wf(sd),
            final(self).hand(old(self).active_player_index as int) == remove_all(old(self).hand(old(self).active_player_index as int), card_deck_index),
            forall|q: int| 0 <= q < old(self).hands@.len() && q != old(self).active_player_index ==> #[trigger] final(self).hands@[q] == old(self).hands@[q],
            final(self).clue_tokens == if old(self).clue_tokens < MAX_CLUE_TOKEN_COUNT { (old(self).clue_tokens + 1) as u8 } else { old(self).clue_tokens },
            final(self).playing_stacks == old(self).playing_stacks,
            final(self).discard_pile == old(self).discard_pile,
            final(self).deck_empathy == old(self).deck_empathy,
            final(self).strike_tokens == old(self).strike_tokens,
            final(self).clue_touched_cards == old(self).clue_touched_cards,
            final(self).deck_size == old(self).deck_size,
            final(self).current_turn == old(self).current_turn,
            final(self).active_player_index == old(self).active_player_index,
            final(self)@ == old(self)@.discarded_unknown(card_deck_index),
    {
        let p = self.active_player_index;
        self.remove_from_hand(sd, p, card_deck_index);
        if self.clue_tokens < MAX_CLUE_TOKEN_COUNT {
            self.clue_tokens = self.clue_tokens + 1;
        }
        assert(self@ =~= old(self)@.discarded_unknown(card_deck_index));
    }

    /// A clue is given to `receiver`: one token is spent, the touched cards are marked and
    /// every card of the receiver's hand has its public empathy narrowed by what the clue
    /// says of it (matches for touched cards, does not match for the others). A narrowing
    /// that would leave no identity is skipped.
    pub fn update_with_clue_action(
        &mut self,
        sd: &StaticGameData,
        touched: &[CardDeckIndex],
        clue: &Clue,
        receiver: usize,
    )
        requires
            old(self).wf(sd),
            receiver < sd.number_of_players,
            forall|k: int| 0 <= k < touched@.len() ==> #[trigger] touched@[k] < MAX_CARDS_IN_DECK,
        ensures
            final(self).wf(sd),
            final(self).clue_tokens == if old(self).clue_tokens > 0 { (old(self).clue_tokens - 1) as u8 } else { 0 },
            forall|i: int| #[trigger] in_mask(final(self).clue_touched_cards, i) <==> (in_mask(old(self).clue_touched_cards, i) || (0 <= i < 64 && touched@.contains(i as u8))),
            forall|k: int| 0 <= k < MAX_CARDS_IN_DECK ==> #[trigger] final(self).empathy_of(k) == clue_narrowed_empathy(old(self).empathy_of(k), k, touched@, old(self).hand(receiver as int), sd.variant.clue_mask(clue.clue_type, clue.clue_value as int)),
            final(self).hands == old(self).hands,
            final(self).playing_stacks == old(self).playing_stacks,
            final(self).discard_pile == old(self).discard_pile,
            final(self).strike_tokens == old(self).strike_tokens,
            final(self).deck_size == old(self).deck_size,
            final(self).current_turn == old(self).current_turn,
            final(self).active_player_index == old(self).active_player_index,
            final(self)@ == old(self)@.clued(touched@, receiver as int, sd.variant.clue_mask(clue.clue_type, clue.clue_value as int)),
    {
        if self.clue_tokens > 0 {
            self.clue_tokens = self.clue_tokens - 1;
        }
        let ghost old_touched = self.clue_touched_cards;
        let mut t: usize = 0;
        while t < touched.len()
            invariant
                self.wf(sd),
                self.hands == old(self).hands,
                self.deck_empathy == old(self).deck_empathy,
                self.playing_stacks == old(self).playing_stacks,
                self.discard_pile == old(self).discard_pile,
                self.strike_tokens == old(self).strike_tokens,
                self.deck_size == old(self).deck_size,
                self.current_turn == old(self).current_turn,
                self.active_player_index == old(self).active_player_index,
                self.clue_tokens == if old(self).clue_tokens > 0 { (old(self).clue_tokens - 1) as u8 } else { 0 },
                receiver < sd.number_of_players,
                t <= touched@.len(),
                forall|k: int| 0 <= k < touched@.len() ==> #[trigger] touched@[k] < MAX_CARDS_IN_DECK,
                forall|i: int| #[trigger] in_mask(self.clue_touched_cards, i) <==> (in_mask(old_touched, i) || (0 <= i < 64 && touched@.subrange(0, t as int).contains(i as u8))),
            decreases touched.len() - t,
        {
            let idx = touched[t];
            self.clue_touched_cards = self.clue_touched_cards | bit(idx);
            proof {
                assert forall|i: int| #[trigger] in_mask(self.clue_touched_cards, i) <==> (in_mask(old_touched, i) || (0 <= i < 64 && touched@.subrange(0, t + 1).contains(i as u8))) by {
                    let s0 = touched@.subrange(0, t as int);
                    let s1 = touched@.subrange(0, t + 1);
                    assert(s1 == s0.push(idx));
                    if 0 <= i < 64 && s1.contains(i as u8) && i as u8 != idx {
                        let j = choose|j: int| 0 <= j < s1.len() && s1[j] == i as u8;
                        assert(s0[j] == i as u8);
                    }
                    if 0 <= i < 64 && s0.contains(i as u8) {
                        let j = choose|j: int| 0 <= j < s0.len() && s0[j] == i as u8;
                        assert(s1[j] == i as u8);
                    }
                    if i == idx {
                        assert(s1[t as int] == idx);
                    }
                }
            }
            t += 1;
        }
        assert(touched@.subrange(0, touched@.len() as int) == touched@);
        let clue_mask = sd.variant.empathy_for_clue(clue);
        let ghost old_empathy = self.deck_empathy@;
        let ghost old_touched_final = self.clue_touched_cards;
        let hand = &self.hands[receiver];
        let mut k: usize = 0;
        while k < MAX_CARDS_IN_DECK
            invariant
                self.wf(sd),
                self.hands == old(self).hands,
                self.playing_stacks == old(self).playing_stacks,
                self.discard_pile == old(self).discard_pile,
                self.strike_tokens == old(self).strike_tokens,
                self.deck_size == old(self).deck_size,
                self.current_turn == old(self).current_turn,
                self.active_player_index == old(self).active_player_index,
                self.clue_tokens == if old(self).clue_tokens > 0 { (old(self).clue_tokens - 1) as u8 } else { 0 },
                self.clue_touched_cards == old_touched_final,
                old_empathy == old(self).deck_empathy@,
                receiver < sd.number_of_players,
                k <= MAX_CARDS_IN_DECK,
                self.deck_empathy@.len() == MAX_CARDS_IN_DECK,
                old_empathy.len() == MAX_CARDS_IN_DECK,
                hand@ == self.hands@[receiver as int]@,
                clue_mask == sd.variant.clue_mask(clue.clue_type, clue.clue_value as int),
                forall|q: int| 0 <= q < k ==> #[trigger] self.deck_empathy@[q] == clue_narrowed_empathy(old_empathy[q], q, touched@, hand@, clue_mask),
                forall|q: int| k <= q < MAX_CARDS_IN_DECK ==> #[trigger] self.deck_empathy@[q] == old_empathy[q],
            decreases MAX_CARDS_IN_DECK - k,
        {
            let idx = k as u8;
            let e = self.deck_empathy[k];
            let ne = if slice_contains(touched, idx) {
                if e & clue_mask != 0 { e & clue_mask } else { e }
            } else if slice_contains(hand.as_slice(), idx) {
                if e & !clue_mask != 0 { e & !clue_mask } else { e }
            } else {
                e
            };
            self.deck_empathy.set(k, ne);
            k += 1;
        }
        proof {
            lemma_positions_mask(touched@);
            lemma_ext(self.clue_touched_cards, old(self).clue_touched_cards | positions_mask(touched@));
        }
        assert(self@ =~= old(self)@.clued(touched@, receiver as int, sd.variant.clue_mask(clue.clue_type, clue.clue_value as int)));
    }

    /// Pass the turn to the next player.
    pub fn advance_turn(&mut self, sd: &StaticGameData)
        requires
            old(self).wf(sd),
            old(self).current_turn < usize::MAX,
        ensures
            final(self).wf(sd),
            final(self).active_player_index == (old(self).active_player_index + 1) % (sd.number_of_players as int),
            final(self).current_turn == old(self).current_turn + 1,
            final(self).hands == old(self).hands,
            final(self).playing_stacks == old(self).playing_stacks,
            final(self).discard_pile == old(self).discard_pile,
            final(self).deck_empathy == old(self).deck_empathy,
            final(self).clue_touched_cards == old(self).clue_touched_cards,
            final(self).clue_tokens == old(self).clue_tokens,
            final(self).strike_tokens == old(self).strike_tokens,
            final(self).deck_size == old(self).deck_size,
            final(self)@ == old(self)@.advanced(sd.number_of_players as int),
    {
        let n = sd.number_of_players as usize;
        self.active_player_index = (self.active_player_index + 1) % n;
        self.current_turn = self.current_turn + 1;
        assert(self@ =~= old(self)@.advanced(sd.number_of_players as int));
    }
}

/// Public empathy of deck position `k` after a clue of mask `clue_mask` touching `touched`
/// in a hand holding `hand`.
pub open spec fn clue_narrowed_empathy(e: u64, k: int, touched: Seq<u8>, hand: Seq<u8>, clue_mask: u64) -> u64 {
    if touched.contains(k as u8) {
        if e & clue_mask != 0 { e & clue_mask } else { e }
    } else if hand.contains(k as u8) {
        if e & !clue_mask != 0 { e & !clue_mask } else { e }
    } else {
        e
    }
}

/// Linear search in a slice.
pub fn slice_contains(s: &[u8], x: u8) -> (r: bool)
    ensures
        r == s@.contains(x),
{
    let mut i: usize = 0;
    while i < s.len()
        invariant
            i <= s@.len(),
            forall|j: int| 0 <= j < i ==> s@[j] != x,
        decreases s.len() - i,
    {
        if s[i] == x {
            return true;
        }
        i += 1;
    }
    false
}


/// A copy of a vector of bytes.
pub fn copy_bytes(v: &Vec<u8>) -> (r: Vec<u8>)
    ensures
        r@ == v@,
{
    let mut r: Vec<u8> = Vec::new();
    let mut i: usize = 0;
    while i < v.len()
        invariant
            i <= v@.len(),
            r@ == v@.subrange(0, i as int),
        decreases v.len() - i,
    {
        r.push(v[i]);
        i += 1;
        assert(r@ =~= v@.subrange(0, i as int));
    }
    assert(v@.subrange(0, v@.len() as int) =~= v@);
    r
}

/// A copy of a vector of words.
pub fn copy_words(v: &Vec<u64>) -> (r: Vec<u64>)
    ensures
        r@ == v@,
{
    let mut r: Vec<u64> = Vec::new();
    let mut i: usize = 0;
    while i < v.len()
        invariant
            i <= v@.len(),
            r@ == v@.subrange(0, i as int),
        decreases v.len() - i,
    {
        r.push(v[i]);
        i += 1;
        assert(r@ =~= v@.subrange(0, i as int));
    }
    assert(v@.subrange(0, v@.len() as int) =~= v@);
    r
}

} // verus!
