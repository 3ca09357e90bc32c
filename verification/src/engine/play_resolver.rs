//! Identity resolution and draws: what differs between a search and a replay.
use vstd::prelude::*;
use crate::engine::knowledge::lightweight_player_pov::LightweightPlayerPOV;
use crate::engine::knowledge_aware_game_state::{empathy_play_id, known_playable, spectator_id, KnowledgeAwareGameState};
use crate::game::card::{CardDeckIndex, VariantCardId};
use crate::game::MAX_CARDS_IN_DECK;

verus! {

/// The outcome of resolving a played card's identity.
#[derive(Clone, Copy, Debug, PartialEq, Eq, Structural)]
pub enum ResolvedPlay {
    /// The card's identity is known exactly.
    Known(VariantCardId),
    /// The card is known playable but its identity is one of several candidates (search
    /// only): the score advances by a phantom play and no stack is committed.
    KnownPlayableAmbiguous,
    /// No identity information.
    Unknown,
}

/// What to draw after a play or discard.
#[derive(Clone, Copy, Debug, PartialEq, Eq, Structural)]
pub enum DrawnCard {
    /// The deck is empty: no draw.
    Empty,
    /// A card of known identity (spectator, replay).
    Known { card_id: VariantCardId },
    /// A card of unknown identity; the state's own draw logic deals it.
    Unknown,
}

/// The two points where a search and a replay differ: identifying a played or discarded
/// card, and drawing.
pub trait PlayResolver {
    /// The resolver can identify card `idx` of `state`, played or discarded by `player`.
    spec fn resolvable(&self, state: &KnowledgeAwareGameState, player: usize, idx: CardDeckIndex) -> bool;

    /// The resolver can deal a card from a deck of `deck_size` cards at position `next`.
    spec fn drawable(&self, deck_size: u8, next: u8) -> bool;

    /// The identity (or playable-but-ambiguous status) of a card `player_index` plays.
    fn resolve_play(&self, player_index: usize, card_deck_index: CardDeckIndex, state: &KnowledgeAwareGameState) -> ResolvedPlay
        requires
            self.resolvable(state, player_index, card_deck_index),
    ;

    /// The identity of a card `player_index` discards, when known.
    fn resolve_discard(&self, player_index: usize, card_deck_index: CardDeckIndex, state: &KnowledgeAwareGameState) -> Option<VariantCardId>
        requires
            self.resolvable(state, player_index, card_deck_index),
    ;

    /// What to draw next; `deck_size` is the deck's size after the play or discard,
    /// `next_deck_index` the state's draw cursor.
    fn draw_next(&mut self, deck_size: u8, next_deck_index: u8) -> DrawnCard
        requires
            old(self).drawable(deck_size, next_deck_index),
    ;
}

/// Search resolver: the searcher's POV first, then the actor's empathy.
pub struct TruthPovResolver<'a> {
    truth: &'a LightweightPlayerPOV<'a>,
}

impl<'a> TruthPovResolver<'a> {
    pub closed spec fn truth(&self) -> LightweightPlayerPOV<'a> {
        *self.truth
    }

    pub fn new(truth: &'a LightweightPlayerPOV<'a>) -> (r: Self)
        ensures
            r.truth() == *truth,
    {
        TruthPovResolver { truth }
    }
}

/// How the searcher resolves a play of card `idx` by `p`: the identity the searcher's POV
/// `truth` gives it, else the one the actor's empathy gives it; else, when the actor knows
/// the card playable, an ambiguous playable card; else unknown.
pub open spec fn truth_resolved_play(truth: LightweightPlayerPOV, state: &KnowledgeAwareGameState, p: int, idx: int) -> ResolvedPlay {
    let kv = state.team().view_of(p);
    match truth.card_id(idx) {
        Some(t) => ResolvedPlay::Known(t),
        None => match empathy_play_id(kv, idx, &state.ts(), &state.sd()) {
            Some(i) => ResolvedPlay::Known(i),
            None => if known_playable(kv, idx, &state.ts(), &state.sd()) {
                ResolvedPlay::KnownPlayableAmbiguous
            } else {
                ResolvedPlay::Unknown
            },
        },
    }
}

impl<'a> PlayResolver for TruthPovResolver<'a> {
    open spec fn resolvable(&self, state: &KnowledgeAwareGameState, player: usize, idx: CardDeckIndex) -> bool {
        &&& self.truth().wf()
        &&& state.wf()
        &&& player < state.n()
        &&& idx < MAX_CARDS_IN_DECK
    }

    open spec fn drawable(&self, deck_size: u8, next: u8) -> bool {
        true
    }

    fn resolve_play(&self, player_index: usize, card_deck_index: CardDeckIndex, state: &KnowledgeAwareGameState) -> (r: ResolvedPlay)
        ensures
            r == truth_resolved_play(self.truth(), state, player_index as int, card_deck_index as int),
    {
        proof {
            state.lemma_wf();
        }
        let knowledge = state.team_knowledge().player(player_index);
        let has_play_signal = knowledge.has_play_signal(card_deck_index);
        let combined = knowledge.combined_possible_identities(card_deck_index, state.table_state(), state.static_data());
        let empathy_id = match combined.known_card_id() {
            Some(i) => Some(i),
            None => if has_play_signal {
                let playable = state.table_state().playable_cards(state.static_data());
                match combined.narrow(playable) {
                    Some(e) => e.known_card_id(),
                    None => None,
                }
            } else {
                None
            },
        };
        let id = match self.truth.card_identity(card_deck_index) {
            Some(t) => Some(t),
            None => empathy_id,
        };
        if let Some(card_id) = id {
            ResolvedPlay::Known(card_id)
        } else if state.is_known_playable_play(player_index, card_deck_index, has_play_signal) {
            ResolvedPlay::KnownPlayableAmbiguous
        } else {
            ResolvedPlay::Unknown
        }
    }

    fn resolve_discard(&self, player_index: usize, card_deck_index: CardDeckIndex, state: &KnowledgeAwareGameState) -> (r: Option<VariantCardId>)
        ensures
            r == match self.truth().card_id(card_deck_index as int) {
                Some(t) => Some(t),
                None => spectator_id(state.views(), 0, state.n(), player_index as int, card_deck_index as int, &state.ts(), &state.sd().variant),
            },
    {
        proof {
            state.lemma_wf();
        }
        if let Some(t) = self.truth.card_identity(card_deck_index) {
            return Some(t);
        }
        let num_players = state.static_data().num_players();
        let ghost total = spectator_id(state.views(), 0, num_players as int, player_index as int, card_deck_index as int, &state.ts(), &state.sd().variant);
        let mut obs: usize = 0;
        while obs < num_players
            invariant
                state.wf(),
                num_players == state.n(),
                num_players <= crate::game::MAX_PLAYERS_IN_GAME,
                obs <= num_players,
                card_deck_index < MAX_CARDS_IN_DECK,
                spectator_id(state.views(), obs as int, num_players as int, player_index as int, card_deck_index as int, &state.ts(), &state.sd().variant) == total,
                total == spectator_id(state.views(), 0, state.n(), player_index as int, card_deck_index as int, &state.ts(), &state.sd().variant),
                self.truth().card_id(card_deck_index as int) is None,
            decreases num_players - obs,
        {
            if obs != player_index {
                proof {
                    state.lemma_wf();
                }
                let e = state.team_knowledge().player(obs).combined_possible_identities(card_deck_index, state.table_state(), state.static_data());
                proof {
                    assert(state.views()[obs as int] == state.team().view_of(obs as int));
                    assert(e.bits == state.views()[obs as int].combined(card_deck_index as int, &state.ts(), &state.sd().variant));
                }
                if e.is_exactly_known() {
                    return e.known_card_id();
                }
            }
            obs += 1;
        }
        None
    }

    fn draw_next(&mut self, deck_size: u8, next_deck_index: u8) -> (r: DrawnCard)
        ensures
            r == DrawnCard::Unknown,
    {
        DrawnCard::Unknown
    }
}

/// Replay resolver: identities come from the actual deck order.
pub struct GroundTruthResolver<'a> {
    actual_deck: &'a [VariantCardId],
}

impl<'a> GroundTruthResolver<'a> {
    pub closed spec fn deck(&self) -> Seq<VariantCardId> {
        self.actual_deck@
    }

    pub fn new(actual_deck: &'a [VariantCardId]) -> (r: Self)
        ensures
            r.deck() == actual_deck@,
    {
        GroundTruthResolver { actual_deck }
    }
}

impl<'a> PlayResolver for GroundTruthResolver<'a> {
    open spec fn resolvable(&self, state: &KnowledgeAwareGameState, player: usize, idx: CardDeckIndex) -> bool {
        idx < self.deck().len()
    }

    open spec fn drawable(&self, deck_size: u8, next: u8) -> bool {
        deck_size > 0 ==> next < self.deck().len()
    }

    fn resolve_play(&self, player_index: usize, card_deck_index: CardDeckIndex, state: &KnowledgeAwareGameState) -> (r: ResolvedPlay)
        ensures
            r == ResolvedPlay::Known(self.deck()[card_deck_index as int]),
    {
        ResolvedPlay::Known(self.actual_deck[card_deck_index as usize])
    }

    fn resolve_discard(&self, player_index: usize, card_deck_index: CardDeckIndex, state: &KnowledgeAwareGameState) -> (r: Option<VariantCardId>)
        ensures
            r == Some(self.deck()[card_deck_index as int]),
    {
        Some(self.actual_deck[card_deck_index as usize])
    }

    fn draw_next(&mut self, deck_size: u8, next_deck_index: u8) -> (r: DrawnCard)
        ensures
            *final(self) == *old(self),
            r == if deck_size == 0 {
                DrawnCard::Empty
            } else {
                DrawnCard::Known { card_id: old(self).deck()[next_deck_index as int] }
            },
    {
        if deck_size == 0 {
            return DrawnCard::Empty;
        }
        DrawnCard::Known { card_id: self.actual_deck[next_deck_index as usize] }
    }
}

} // verus!
