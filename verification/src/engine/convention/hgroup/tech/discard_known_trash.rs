//! Discard the newest card known to be trash.
use vstd::prelude::*;
use crate::engine::game_state_snapshot::GameStateSnapshot;
use crate::engine::knowledge::knowledge_update::{hyp_empty, Hypothesis};
use crate::engine::knowledge::lightweight_player_pov::LightweightPlayerPOV;
use crate::game::action::{GameAction, GameActionView};
use crate::game::card::CardDeckIndex;
use crate::game::{PlayerIndex, MAX_CARDS_IN_DECK, MAX_CLUE_TOKEN_COUNT};

verus! {

/// Discard the leftmost (newest) card known to be trash: every identity it may have is
/// played or unreachable. Nothing is proposed with a full clue bank or without known trash.
pub struct DiscardKnownTrash;

/// The first card of `s` that `pov` knows to be trash.
pub open spec fn first_trash(pov: LightweightPlayerPOV, s: Seq<u8>) -> Option<u8>
    decreases s.len(),
{
    if s.len() == 0 {
        None
    } else if pov.trash(s[0] as int) {
        Some(s[0])
    } else {
        first_trash(pov, s.drop_first())
    }
}

/// The known-trash discard of the player on turn.
pub open spec fn trash_discards(pov: LightweightPlayerPOV) -> Seq<GameActionView> {
    let p = pov.ts().active_player_index;
    if pov.ts().clue_tokens >= MAX_CLUE_TOKEN_COUNT {
        Seq::empty()
    } else {
        match first_trash(pov, pov.ts().hand(p as int)) {
            Some(c) => seq![GameActionView::Discard { player_index: p, card_deck_index: c, turn: pov.ts().current_turn }],
            None => Seq::empty(),
        }
    }
}

impl DiscardKnownTrash {
    /// The discard of the newest known-trash card of the player on turn.
    pub fn discard_game_actions(&self, active_player_pov: &LightweightPlayerPOV) -> (r: Vec<GameAction>)
        requires
            active_player_pov.wf(),
        ensures
            r@.map_values(|a: GameAction| a@) == trash_discards(*active_player_pov),
    {
        proof {
            active_player_pov.lemma_wf();
        }
        let player_index = active_player_pov.active_player_index();
        let table_state = active_player_pov.table_state();
        if table_state.whole_clue_tokens_count() >= MAX_CLUE_TOKEN_COUNT {
            let r: Vec<GameAction> = Vec::new();
            assert(r@.map_values(|a: GameAction| a@) =~= trash_discards(*active_player_pov));
            return r;
        }
        let hand = &table_state.hands[player_index];
        let ghost s = hand@;
        let mut k: usize = 0;
        assert(s.subrange(0, s.len() as int) == s);
        while k < hand.len()
            invariant
                active_player_pov.wf(),
                active_player_pov.ts().wf(&active_player_pov.sd()),
                *table_state == active_player_pov.ts(),
                player_index == active_player_pov.ts().active_player_index,
                player_index < active_player_pov.sd().number_of_players,
                active_player_pov.ts().clue_tokens < MAX_CLUE_TOKEN_COUNT,
                s == hand@,
                s == active_player_pov.ts().hand(player_index as int),
                k <= s.len(),
                first_trash(*active_player_pov, s) == first_trash(*active_player_pov, s.subrange(k as int, s.len() as int)),
            decreases hand.len() - k,
        {
            let idx = hand[k];
            proof {
                let t = s.subrange(k as int, s.len() as int);
                assert(t[0] == idx);
                assert(t.drop_first() == s.subrange(k + 1, s.len() as int));
                assert(idx < MAX_CARDS_IN_DECK);
            }
            if active_player_pov.is_known_trash(idx) {
                let r = vec![GameAction::Discard { player_index, card_deck_index: idx, turn: table_state.current_turn }];
                assert(r@.map_values(|a: GameAction| a@) =~= trash_discards(*active_player_pov));
                return r;
            }
            k += 1;
        }
        assert(s.subrange(k as int, s.len() as int) =~= Seq::<u8>::empty());
        let r: Vec<GameAction> = Vec::new();
        assert(r@.map_values(|a: GameAction| a@) =~= trash_discards(*active_player_pov));
        r
    }

    /// The discarded card is known trash from `observer_pov`.
    pub fn matches_discard(
        &self,
        _player_index: PlayerIndex,
        card_deck_index: CardDeckIndex,
        _turn: usize,
        _history: &[GameStateSnapshot],
        observer_pov: &LightweightPlayerPOV,
    ) -> (r: bool)
        requires
            observer_pov.wf(),
            card_deck_index < MAX_CARDS_IN_DECK,
        ensures
            r == observer_pov.trash(card_deck_index as int),
    {
        observer_pov.is_known_trash(card_deck_index)
    }

    /// A trash discard teaches nothing.
    pub fn discard_knowledge_updates(
        &self,
        _player_index: PlayerIndex,
        _card: CardDeckIndex,
        _turn: usize,
        _history: &[GameStateSnapshot],
        _observer_pov: &LightweightPlayerPOV,
    ) -> (r: Hypothesis)
        ensures
            r@ == hyp_empty(),
    {
        Hypothesis::empty()
    }
}

} // verus!
