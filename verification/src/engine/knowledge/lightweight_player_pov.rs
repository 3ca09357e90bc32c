//! A read-only view of the game from one player's perspective.
use vstd::prelude::*;
use crate::bits::{group_bits, in_mask, single, bit, test_bit, lemma_test_bit, lemma_and_eq_iff};
use crate::engine::knowledge::player_knowledge::{has_play_in, KnowledgeView, PlayerKnowledge};
use crate::engine::knowledge::team_knowledge::TeamKnowledge;
use crate::game::card::{known_id, lemma_known_id_bits, CardDeckIndex, CardIdentityMask, DeckCardsBitField, VariantCardId};
use crate::game::static_game_data::StaticGameData;
use crate::game::table_state::TableState;
use crate::game::variant::Variant;
use crate::game::{PlayerIndex, MAX_CARDS_IN_DECK, MAX_PLAYERS_IN_GAME, MAX_CLUE_TOKEN_COUNT};
use crate::game::action::{GameAction, GameActionView};
use crate::engine::convention::hgroup::h_group_core::{clues_for_player_with_focus, clues_with_focus, pairs_view};

verus! {

broadcast use group_bits;

/// Combines the shared table state with one player's knowledge; borrows everything.
pub struct LightweightPlayerPOV<'a> {
    player_index: usize,
    knowledge: &'a PlayerKnowledge,
    team_knowledge: &'a TeamKnowledge,
    table_state: &'a TableState,
    static_data: &'a StaticGameData,
}

/// Hand of player `p` contains deck position `idx`.
pub open spec fn in_hand(ts: &TableState, p: int, idx: int) -> bool {
    exists|k: int| 0 <= k < ts.hand(p).len() && ts.hand(p)[k] == idx
}

/// Some copy of a lower rank of `id`'s suit is entirely discarded.
pub open spec fn unreachable_for(ts: TableState, v: Variant, id: int) -> bool {
    exists|k: int| 0 <= k < id % 5 && #[trigger] ts.discarded(id - id % 5 + k) == v.copies(id - id % 5 + k)
}

/// Identity `id` of the variant can no longer be played usefully: a copy is on its stack,
/// or a lower rank of its suit is entirely discarded.
pub open spec fn trash_id(ts: TableState, v: Variant, id: int) -> bool {
    0 <= id < v.total_ids() && (ts.is_played(id) || unreachable_for(ts, v, id))
}

/// For a player with knowledge `kv`, every identity card `idx` may have is played or
/// unreachable.
pub open spec fn trash_for(kv: KnowledgeView, ts: TableState, v: Variant, idx: int) -> bool {
    let c = kv.combined(idx, &ts, &v);
    forall|i: int| #[trigger] in_mask(c, i) ==> trash_id(ts, v, i)
}

impl<'a> LightweightPlayerPOV<'a> {
    pub closed spec fn me(&self) -> int {
        self.player_index as int
    }

    pub closed spec fn kv(&self) -> KnowledgeView {
        self.knowledge@
    }

    pub closed spec fn team(&self) -> TeamKnowledge {
        *self.team_knowledge
    }

    pub closed spec fn ts(&self) -> TableState {
        *self.table_state
    }

    pub closed spec fn sd(&self) -> StaticGameData {
        *self.static_data
    }

    pub open spec fn v(&self) -> Variant {
        self.sd().variant
    }

    pub closed spec fn wf(&self) -> bool {
        &&& self.table_state.wf(self.static_data)
        &&& self.knowledge.wf()
        &&& self.team_knowledge.wf()
        &&& self.team_knowledge.spec_num_players() == self.static_data.number_of_players
        &&& self.player_index < self.static_data.number_of_players
    }

    pub proof fn lemma_wf(&self)
        requires
            self.wf(),
        ensures
            self.ts().wf(&self.sd()),
            self.sd().wf(),
            self.team().wf(),
            self.team().spec_num_players() == self.sd().number_of_players,
            self.me() < self.sd().number_of_players,
            self.kv().inferred.len() == MAX_CARDS_IN_DECK,
            self.kv().signals.len() == MAX_CARDS_IN_DECK,
    {
    }

    /// Identities of a card from this POV.
    pub open spec fn combined(&self, idx: int) -> u64 {
        self.kv().combined(idx, &self.ts(), &self.v())
    }

    /// The identity of a card, when this POV pins it down.
    pub open spec fn card_id(&self, idx: int) -> Option<VariantCardId> {
        known_id(self.combined(idx))
    }

    pub open spec fn touched(&self, idx: int) -> bool {
        self.ts().touched(idx)
    }

    /// Every identity of the card is playable, or this player holds a play signal on it.
    pub open spec fn playable(&self, idx: int) -> bool {
        let c = self.combined(idx);
        (c & self.ts().playable_mask(&self.v()) == c) || has_play_in(self.kv().signals[idx])
    }

    /// Number of plays before `id` becomes playable; `None` when a copy is already played.
    pub open spec fn away(&self, id: int) -> Option<u8> {
        if self.ts().is_played(id) {
            None
        } else {
            Some((id % 5 - self.ts().stack(id / 5)) as u8)
        }
    }

    /// Only one copy of `id` is left.
    pub open spec fn critical_id(&self, id: int) -> bool {
        self.v().copies(id) > 0 && self.ts().discarded(id) == self.v().copies(id) - 1
    }

    /// The holder of the card knows its identity (sees it or holds a play signal on it).
    pub open spec fn known_to_holder(&self, idx: int) -> bool {
        exists|p: int|
            0 <= p < self.sd().number_of_players && #[trigger] in_mask(self.team().view_of(p).own_hand, idx)
                && (in_mask(self.team().view_of(p).visible, idx) || has_play_in(self.team().view_of(p).signals[idx]))
    }

    /// Some copy of a lower rank of `id`'s suit is entirely discarded.
    pub open spec fn unreachable_id(&self, id: int) -> bool {
        unreachable_for(self.ts(), self.v(), id)
    }

    /// Every identity of the card is played, or is unreachable.
    pub open spec fn trash(&self, idx: int) -> bool {
        trash_for(self.kv(), self.ts(), self.v(), idx)
    }

    /// Identity `i` is held, known from this POV, by a touched or play-signalled card.
    pub open spec fn gotten(&self, i: int) -> bool {
        exists|p: int, k: int|
            0 <= p < self.sd().number_of_players && 0 <= k < self.ts().hand(p).len()
                && #[trigger] self.contributes(self.ts().hand(p)[k] as int, i)
    }

    /// Card `idx` makes identity `i` gotten: known as `i` and touched or play-signalled.
    pub open spec fn contributes(&self, idx: int, i: int) -> bool {
        &&& 0 <= i < 64
        &&& self.card_id(idx) == Some(i as u8)
        &&& (self.touched(idx) || self.kv().play_signal(idx))
    }

    /// The POV built from these parts.
    pub closed spec fn pov_of(
        player_index: usize,
        knowledge: &'a PlayerKnowledge,
        team_knowledge: &'a TeamKnowledge,
        table_state: &'a TableState,
        static_data: &'a StaticGameData,
    ) -> Self {
        LightweightPlayerPOV { player_index, knowledge, team_knowledge, table_state, static_data }
    }

    pub broadcast proof fn lemma_pov_of(
        player_index: usize,
        knowledge: &'a PlayerKnowledge,
        team_knowledge: &'a TeamKnowledge,
        table_state: &'a TableState,
        static_data: &'a StaticGameData,
    )
        ensures
            #![trigger Self::pov_of(player_index, knowledge, team_knowledge, table_state, static_data)]
            Self::pov_of(player_index, knowledge, team_knowledge, table_state, static_data).me() == player_index,
            Self::pov_of(player_index, knowledge, team_knowledge, table_state, static_data).kv() == knowledge@,
            Self::pov_of(player_index, knowledge, team_knowledge, table_state, static_data).team() == *team_knowledge,
            Self::pov_of(player_index, knowledge, team_knowledge, table_state, static_data).ts() == *table_state,
            Self::pov_of(player_index, knowledge, team_knowledge, table_state, static_data).sd() == *static_data,
            (table_state.wf(static_data) && knowledge.wf() && team_knowledge.wf()
                && team_knowledge.spec_num_players() == static_data.number_of_players
                && player_index < static_data.number_of_players) ==> Self::pov_of(player_index, knowledge, team_knowledge, table_state, static_data).wf(),
    {
    }

    #[must_use]
    pub fn new(
        player_index: usize,
        knowledge: &'a PlayerKnowledge,
        team_knowledge: &'a TeamKnowledge,
        table_state: &'a TableState,
        static_data: &'a StaticGameData,
    ) -> (r: Self)
        ensures
            r == Self::pov_of(player_index, knowledge, team_knowledge, table_state, static_data),
            r.me() == player_index,
            r.kv() == knowledge@,
            r.team() == *team_knowledge,
            r.ts() == *table_state,
            r.sd() == *static_data,
            (table_state.wf(static_data) && knowledge.wf() && team_knowledge.wf()
                && team_knowledge.spec_num_players() == static_data.number_of_players
                && player_index < static_data.number_of_players) ==> r.wf(),
    {
        LightweightPlayerPOV { player_index, knowledge, team_knowledge, table_state, static_data }
    }

    pub fn player_index(&self) -> (r: PlayerIndex)
        ensures
            r == self.me(),
    {
        self.player_index
    }

    pub fn active_player_index(&self) -> (r: PlayerIndex)
        ensures
            r == self.ts().active_player_index,
    {
        self.table_state.active_player_index
    }

    pub fn table_state(&self) -> (r: &'a TableState)
        ensures
            *r == self.ts(),
    {
        self.table_state
    }

    pub fn static_data(&self) -> (r: &'a StaticGameData)
        ensures
            *r == self.sd(),
    {
        self.static_data
    }

    pub fn team_knowledge(&self) -> (r: &'a TeamKnowledge)
        ensures
            *r == self.team(),
    {
        self.team_knowledge
    }

    pub fn knowledge(&self) -> (r: &'a PlayerKnowledge)
        ensures
            r@ == self.kv(),
    {
        self.knowledge
    }

    /// The POV of `player_index` as this player tracks it: built from
    /// `team_knowledge().player(player_index)`.
    pub fn as_player_pov(&self, player_index: PlayerIndex) -> (r: LightweightPlayerPOV<'a>)
        requires
            self.wf(),
            player_index < self.sd().number_of_players,
        ensures
            r.wf(),
            r.me() == player_index,
            r.kv() == self.team().view_of(player_index as int),
            r.team() == self.team(),
            r.ts() == self.ts(),
            r.sd() == self.sd(),
    {
        LightweightPlayerPOV::new(
            player_index,
            self.team_knowledge.player(player_index),
            self.team_knowledge,
            self.table_state,
            self.static_data,
        )
    }

    /// Number of plays before `card_id` becomes playable; `None` when a copy is played.
    pub fn away_value(&self, card_id: VariantCardId) -> (r: Option<u8>)
        requires
            self.wf(),
            card_id < self.v().total_ids(),
        ensures
            r == self.away(card_id as int),
    {
        let sd = self.static_data;
        if self.table_state.contains_card_with_id(sd, card_id) {
            return None;
        }
        let mut away_value: u8 = 0;
        let mut current_card_id = card_id;
        loop
            invariant
                self.wf(),
                *sd == self.sd(),
                card_id < self.v().total_ids(),
                current_card_id <= card_id,
                current_card_id / 5 == card_id / 5,
                away_value == card_id - current_card_id,
                !self.ts().is_played(current_card_id as int),
            ensures
                away_value == card_id % 5 - self.ts().stack(card_id as int / 5),
            decreases current_card_id,
        {
            match sd.variant.prerequisite(current_card_id) {
                Some(prereq_id) => {
                    if self.table_state.contains_card_with_id(sd, prereq_id) {
                        break;
                    }
                    away_value += 1;
                    current_card_id = prereq_id;
                },
                None => break,
            }
        }
        Some(away_value)
    }

    /// Identity of a card from this POV, when exactly known.
    pub fn card_identity(&self, card_deck_index: CardDeckIndex) -> (r: Option<VariantCardId>)
        requires
            self.wf(),
            card_deck_index < MAX_CARDS_IN_DECK,
        ensures
            r == self.card_id(card_deck_index as int),
            r matches Some(i) ==> i < 64 && self.combined(card_deck_index as int) == single(i as int),
    {
        proof {
            lemma_known_id_bits(self.combined(card_deck_index as int));
        }
        self.empathy(card_deck_index).known_card_id()
    }

    /// Identities of a card from this POV.
    pub fn empathy(&self, card_deck_index: CardDeckIndex) -> (r: CardIdentityMask)
        requires
            self.wf(),
            card_deck_index < MAX_CARDS_IN_DECK,
        ensures
            r.bits == self.combined(card_deck_index as int),
    {
        self.knowledge.combined_possible_identities(card_deck_index, self.table_state, self.static_data)
    }

    /// Convention-level identities of a card: the effective inferred mask.
    pub fn inferred_identities(&self, card_deck_index: CardDeckIndex) -> (r: CardIdentityMask)
        requires
            self.wf(),
            card_deck_index < MAX_CARDS_IN_DECK,
        ensures
            r.bits == self.kv().effective_mask(card_deck_index as int, &self.v()),
    {
        self.knowledge.effective_inferred_mask(card_deck_index, &self.static_data.variant)
    }

    pub fn is_touched(&self, card_deck_index: CardDeckIndex) -> (r: bool)
        requires
            card_deck_index < 64,
        ensures
            r == self.touched(card_deck_index as int),
    {
        self.table_state.is_touched(card_deck_index)
    }

    /// Every identity of the card is playable, or this player holds a play signal on it.
    pub fn is_playable(&self, card_deck_index: CardDeckIndex) -> (r: bool)
        requires
            self.wf(),
            card_deck_index < MAX_CARDS_IN_DECK,
        ensures
            r == self.playable(card_deck_index as int),
    {
        let playable_cards = self.table_state.playable_cards(self.static_data);
        let possible = self.empathy(card_deck_index).as_bits();
        let empathy_playable = (possible & playable_cards) == possible;
        let signal_playable = self.knowledge.signals[card_deck_index as usize].has_play();
        empathy_playable || signal_playable
    }

    /// Own-hand cards this player knows to be playable.
    pub fn own_playable_cards(&self) -> (r: DeckCardsBitField)
        requires
            self.wf(),
        ensures
            forall|k: int| #[trigger] in_mask(r, k) <==> (0 <= k < MAX_CARDS_IN_DECK && in_mask(self.kv().own_hand, k) && self.playable(k)),
    {
        let mut result: u64 = 0;
        let mut k: u8 = 0;
        while k < MAX_CARDS_IN_DECK as u8
            invariant
                self.wf(),
                k <= MAX_CARDS_IN_DECK,
                forall|j: int| #[trigger] in_mask(result, j) <==> (0 <= j < k && in_mask(self.kv().own_hand, j) && self.playable(j)),
            decreases MAX_CARDS_IN_DECK - k,
        {
            if test_bit(self.knowledge.own_hand, k) && self.is_playable(k) {
                result = result | bit(k);
            }
            k += 1;
        }
        result
    }

    /// The holder of the card knows its identity (sees it or holds a play signal on it).
    pub fn is_identity_known_to_holder(&self, card_deck_index: CardDeckIndex) -> (r: bool)
        requires
            self.wf(),
            card_deck_index < MAX_CARDS_IN_DECK,
        ensures
            r == self.known_to_holder(card_deck_index as int),
    {
        proof {
            self.team().lemma_wf();
        }
        let num_players = self.static_data.num_players();
        let mut p: usize = 0;
        while p < num_players
            invariant
                self.wf(),
                num_players == self.sd().number_of_players,
                p <= num_players,
                card_deck_index < MAX_CARDS_IN_DECK,
                forall|q: int| 0 <= q < p ==> !(#[trigger] in_mask(self.team().view_of(q).own_hand, card_deck_index as int)
                    && (in_mask(self.team().view_of(q).visible, card_deck_index as int) || has_play_in(self.team().view_of(q).signals[card_deck_index as int]))),
            decreases num_players - p,
        {
            proof {
                self.team().lemma_wf();
            }
            let pk = self.team_knowledge.player(p);
            assert(pk@ == self.team().view_of(p as int));
            if test_bit(pk.own_hand, card_deck_index) {
                if test_bit(pk.visible_cards, card_deck_index) {
                    assert(in_mask(self.team().view_of(p as int).own_hand, card_deck_index as int));
                    return true;
                }
                if pk.signals[card_deck_index as usize].has_play() {
                    assert(in_mask(self.team().view_of(p as int).own_hand, card_deck_index as int));
                    return true;
                }
            }
            p += 1;
        }
        false
    }

    /// Only one copy of the identity is left.
    pub fn is_critical_card_id(&self, variant_card_id: VariantCardId) -> (r: bool)
        requires
            self.wf(),
            variant_card_id < self.v().total_ids(),
        ensures
            r == self.critical_id(variant_card_id as int),
    {
        let total = self.static_data.variant.copies_of(variant_card_id);
        let discarded = self.table_state.copies_discarded(self.static_data, variant_card_id);
        total > 0 && discarded == total - 1
    }

    /// The card's identity is known from this POV and only one copy of it is left.
    pub fn is_critical(&self, card_deck_index: CardDeckIndex) -> (r: bool)
        requires
            self.wf(),
            card_deck_index < MAX_CARDS_IN_DECK,
        ensures
            r == (self.card_id(card_deck_index as int) matches Some(i) && i < self.v().total_ids() && self.critical_id(i as int)),
    {
        match self.card_identity(card_deck_index) {
            None => false,
            Some(card_id) => {
                if card_id >= self.static_data.variant.total_id_count() {
                    return false;
                }
                self.is_critical_card_id(card_id)
            },
        }
    }

    /// Some lower rank of the suit of `id` has all its copies discarded.
    fn is_unreachable_id(&self, id: VariantCardId) -> (r: bool)
        requires
            self.wf(),
            id < self.v().total_ids(),
        ensures
            r == unreachable_for(self.ts(), self.v(), id as int),
    {
        let sd = self.static_data;
        let mut prereq = sd.variant.prerequisite(id);
        let ghost base = id - id % 5;
        loop
            invariant
                self.wf(),
                *sd == self.sd(),
                id < self.v().total_ids(),
                base == id - id % 5,
                prereq matches Some(q) ==> base <= q < id && q == base + (q - base),
                forall|k: int| (match prereq { Some(q) => q - base < k, None => true }) && 0 <= k < id % 5
                    ==> #[trigger] self.ts().discarded(base + k) != self.v().copies(base + k),
            ensures
                forall|k: int| 0 <= k < id % 5 ==> #[trigger] self.ts().discarded(base + k) != self.v().copies(base + k),
            decreases match prereq { Some(q) => q as int + 1, None => 0 },
        {
            match prereq {
                Some(prereq_id) => {
                    let total_copies = sd.variant.copies_of(prereq_id);
                    let discarded_count = self.table_state.copies_discarded(sd, prereq_id);
                    if discarded_count == total_copies {
                        assert(self.ts().discarded(base + (prereq_id - base)) == self.v().copies(base + (prereq_id - base)));
                        return true;
                    }
                    prereq = sd.variant.prerequisite(prereq_id);
                },
                None => break,
            }
        }
        false
    }

    /// Every identity the card may have is played or unreachable.
    pub fn is_known_trash(&self, card_deck_index: CardDeckIndex) -> (r: bool)
        requires
            self.wf(),
            card_deck_index < MAX_CARDS_IN_DECK,
        ensures
            r == self.trash(card_deck_index as int),
    {
        let sd = self.static_data;
        let possible_bits = self.empathy(card_deck_index).as_bits();
        let total = sd.variant.total_id_count();
        let mut bit_pos: u8 = 0;
        while bit_pos < 64
            invariant
                self.wf(),
                *sd == self.sd(),
                total == self.v().total_ids(),
                bit_pos <= 64,
                possible_bits == self.combined(card_deck_index as int),
                forall|i: int| 0 <= i < bit_pos && #[trigger] in_mask(possible_bits, i) ==> trash_id(self.ts(), self.v(), i),
            decreases 64 - bit_pos,
        {
            if test_bit(possible_bits, bit_pos) {
                if bit_pos >= total {
                    assert(!trash_id(self.ts(), self.v(), bit_pos as int));
                    return false;
                }
                if !self.table_state.contains_card_with_id(sd, bit_pos) && !self.is_unreachable_id(bit_pos) {
                    assert(!trash_id(self.ts(), self.v(), bit_pos as int));
                    return false;
                }
            }
            bit_pos += 1;
        }
        true
    }

    /// Identities held, known from this POV, by touched or play-signalled cards.
    pub fn gotten_cards(&self) -> (r: CardIdentityMask)
        requires
            self.wf(),
        ensures
            forall|i: int| #[trigger] in_mask(r.bits, i) <==> self.gotten(i),
    {
        proof {
            self.lemma_wf();
        }
        let num_players = self.static_data.num_players();
        let mut bits: u64 = 0;
        let mut p: usize = 0;
        while p < num_players
            invariant
                self.wf(),
                num_players == self.sd().number_of_players,
                p <= num_players,
                forall|i: int| #[trigger] in_mask(bits, i) <==> exists|q: int, kk: int|
                    0 <= q < p && 0 <= kk < self.ts().hand(q).len() && #[trigger] self.contributes(self.ts().hand(q)[kk] as int, i),
            decreases num_players - p,
        {
            proof {
                self.lemma_wf();
            }
            let hand = &self.table_state.hands[p];
            let mut k: usize = 0;
            while k < hand.len()
                invariant
                    self.wf(),
                    num_players == self.sd().number_of_players,
                    p < num_players,
                    hand@ == self.ts().hand(p as int),
                    k <= hand@.len(),
                    forall|i: int| #[trigger] in_mask(bits, i) <==> exists|q: int, kk: int|
                        ((0 <= q < p && 0 <= kk < self.ts().hand(q).len()) || (q == p && 0 <= kk < k))
                            && #[trigger] self.contributes(self.ts().hand(q)[kk] as int, i),
                decreases hand.len() - k,
            {
                proof {
                    self.lemma_wf();
                }
                let idx = hand[k];
                assert(idx < MAX_CARDS_IN_DECK);
                let ghost old_bits = bits;
                let ci = self.card_identity(idx);
                if let Some(card_identity) = ci {
                    if self.is_touched(idx) || self.knowledge.has_play_signal(idx) {
                        bits = bits | bit(card_identity);
                    }
                }
                proof {
                    assert(self.ts().hand(p as int)[k as int] == idx);
                    assert forall|i: int| #[trigger] in_mask(bits, i) <==> exists|q: int, kk: int|
                        ((0 <= q < p && 0 <= kk < self.ts().hand(q).len()) || (q == p && 0 <= kk < k + 1))
                            && #[trigger] self.contributes(self.ts().hand(q)[kk] as int, i) by {
                        let here = self.contributes(idx as int, i);
                        if here {
                            assert(self.contributes(self.ts().hand(p as int)[k as int] as int, i));
                            assert(in_mask(bits, i));
                        }
                        if in_mask(old_bits, i) {
                            let (q, kk) = choose|q: int, kk: int|
                                ((0 <= q < p && 0 <= kk < self.ts().hand(q).len()) || (q == p && 0 <= kk < k))
                                    && #[trigger] self.contributes(self.ts().hand(q)[kk] as int, i);
                            assert(self.contributes(self.ts().hand(q)[kk] as int, i));
                        }
                        if exists|q: int, kk: int|
                            ((0 <= q < p && 0 <= kk < self.ts().hand(q).len()) || (q == p && 0 <= kk < k + 1))
                                && #[trigger] self.contributes(self.ts().hand(q)[kk] as int, i) {
                            let (q, kk) = choose|q: int, kk: int|
                                ((0 <= q < p && 0 <= kk < self.ts().hand(q).len()) || (q == p && 0 <= kk < k + 1))
                                    && #[trigger] self.contributes(self.ts().hand(q)[kk] as int, i);
                            if q == p && kk == k {
                                assert(here);
                            } else {
                                assert(in_mask(old_bits, i));
                            }
                        }
                    }
                }
                k += 1;
            }
            proof {
                assert forall|i: int| #[trigger] in_mask(bits, i) <==> exists|q: int, kk: int|
                    0 <= q < p + 1 && 0 <= kk < self.ts().hand(q).len() && #[trigger] self.contributes(self.ts().hand(q)[kk] as int, i) by {
                    if in_mask(bits, i) {
                        let (q, kk) = choose|q: int, kk: int|
                            ((0 <= q < p && 0 <= kk < self.ts().hand(q).len()) || (q == p && 0 <= kk < hand@.len()))
                                && #[trigger] self.contributes(self.ts().hand(q)[kk] as int, i);
                        assert(self.contributes(self.ts().hand(q)[kk] as int, i));
                    }
                    if exists|q: int, kk: int| 0 <= q < p + 1 && 0 <= kk < self.ts().hand(q).len() && #[trigger] self.contributes(self.ts().hand(q)[kk] as int, i) {
                        let (q, kk) = choose|q: int, kk: int| 0 <= q < p + 1 && 0 <= kk < self.ts().hand(q).len() && #[trigger] self.contributes(self.ts().hand(q)[kk] as int, i);
                        assert(((0 <= q < p && 0 <= kk < self.ts().hand(q).len()) || (q == p && 0 <= kk < hand@.len())));
                    }
                }
            }
            p += 1;
        }
        CardIdentityMask::from_bits(bits)
    }

    /// Identity `variant_card_id` is gotten from this POV.
    pub fn is_gotten(&self, variant_card_id: VariantCardId) -> (r: bool)
        requires
            self.wf(),
            variant_card_id < 64,
        ensures
            r == self.gotten(variant_card_id as int),
    {
        self.gotten_cards().contains(variant_card_id)
    }

    /// Plays and discards of this player's own cards, positions `0..n` in increasing order;
    /// a discard only when the clue bank is not full.
    pub open spec fn hand_actions(&self, n: int) -> Seq<GameActionView>
        decreases n,
    {
        if n <= 0 {
            Seq::empty()
        } else {
            let prev = self.hand_actions(n - 1);
            let idx = (n - 1) as u8;
            let turn = self.ts().current_turn;
            let me = self.me() as usize;
            if in_mask(self.kv().own_hand, n - 1) {
                let play = seq![GameActionView::Play { player_index: me, card_deck_index: idx, turn }];
                if self.ts().clue_tokens < MAX_CLUE_TOKEN_COUNT {
                    prev + play + seq![GameActionView::Discard { player_index: me, card_deck_index: idx, turn }]
                } else {
                    prev + play
                }
            } else {
                prev
            }
        }
    }

    /// Clues this player can give to players `0..n` other than itself, in player order.
    pub open spec fn clue_actions(&self, n: int) -> Seq<GameActionView>
        decreases n,
    {
        if n <= 0 {
            Seq::empty()
        } else if n - 1 != self.me() {
            self.clue_actions(n - 1) + clues_with_focus(*self, n - 1).map_values(|x: (GameActionView, u8)| x.0)
        } else {
            self.clue_actions(n - 1)
        }
    }

    /// Every legal action of this player: plays and discards of its own cards, then clues.
    pub open spec fn legal_actions(&self) -> Seq<GameActionView> {
        self.hand_actions(64) + if self.ts().clue_tokens > 0 {
            self.clue_actions(self.sd().number_of_players as int)
        } else {
            Seq::empty()
        }
    }

    /// Every action this player may take: play or discard (when the bank is not full) each
    /// own card, then each clue that touches a card it knows.
    pub fn valid_actions(&self) -> (r: Vec<GameAction>)
        requires
            self.wf(),
        ensures
            r@.map_values(|a: GameAction| a@) == self.legal_actions(),
    {
        proof {
            self.lemma_wf();
        }
        let player_index = self.player_index;
        let clue_tokens = self.table_state.whole_clue_tokens_count();
        let turn = self.table_state.current_turn;
        let num_players = self.static_data.num_players();
        let own_hand = self.knowledge.own_hand;
        let mut actions: Vec<GameAction> = Vec::new();
        let mut i: u8 = 0;
        assert(actions@.map_values(|a: GameAction| a@) =~= self.hand_actions(0));
        while i < 64
            invariant
                self.wf(),
                i <= 64,
                player_index == self.me(),
                clue_tokens == self.ts().clue_tokens,
                turn == self.ts().current_turn,
                own_hand == self.kv().own_hand,
                actions@.map_values(|a: GameAction| a@) == self.hand_actions(i as int),
            decreases 64 - i,
        {
            let ghost before = actions@;
            if test_bit(own_hand, i) {
                actions.push(GameAction::Play { player_index, card_deck_index: i, turn });
                if clue_tokens < MAX_CLUE_TOKEN_COUNT {
                    actions.push(GameAction::Discard { player_index, card_deck_index: i, turn });
                }
            }
            assert(actions@.map_values(|a: GameAction| a@) =~= self.hand_actions(i + 1));
            i += 1;
        }
        let ghost hand_part = actions@.map_values(|a: GameAction| a@);
        if clue_tokens > 0 {
            let mut target: usize = 0;
            assert(actions@.map_values(|a: GameAction| a@) =~= hand_part + self.clue_actions(0));
            while target < num_players
                invariant
                    self.wf(),
                    num_players == self.sd().number_of_players,
                    player_index == self.me(),
                    target <= num_players,
                    actions@.map_values(|a: GameAction| a@) == hand_part + self.clue_actions(target as int),
                decreases num_players - target,
            {
                if target != player_index {
                    let clues = clues_for_player_with_focus(target, self);
                    let ghost base = actions@.map_values(|a: GameAction| a@);
                    let ghost cs = clues_with_focus(*self, target as int).map_values(|x: (GameActionView, u8)| x.0);
                    let mut k: usize = 0;
                    assert(pairs_view(clues@).len() == clues@.len());
                    assert(actions@.map_values(|a: GameAction| a@) =~= base + cs.subrange(0, 0));
                    while k < clues.len()
                        invariant
                            k <= clues@.len(),
                            pairs_view(clues@) == clues_with_focus(*self, target as int),
                            cs == clues_with_focus(*self, target as int).map_values(|x: (GameActionView, u8)| x.0),
                            cs.len() == clues@.len(),
                            actions@.map_values(|a: GameAction| a@) == base + cs.subrange(0, k as int),
                        decreases clues.len() - k,
                    {
                        let action = clues[k].0.duplicate();
                        let ghost before = actions@;
                        proof {
                            assert(pairs_view(clues@)[k as int] == (clues@[k as int].0@, clues@[k as int].1));
                            assert(action@ == cs[k as int]);
                        }
                        actions.push(action);
                        assert(actions@.map_values(|a: GameAction| a@) =~= before.map_values(|a: GameAction| a@).push(cs[k as int]));
                        assert(actions@.map_values(|a: GameAction| a@) =~= base + cs.subrange(0, k + 1));
                        k += 1;
                    }
                    assert(cs.subrange(0, clues@.len() as int) =~= cs);
                }
                assert(actions@.map_values(|a: GameAction| a@) =~= hand_part + self.clue_actions(target + 1));
                target += 1;
            }
        } else {
            assert(actions@.map_values(|a: GameAction| a@) =~= self.legal_actions());
        }
        actions
    }
}

} // verus!
