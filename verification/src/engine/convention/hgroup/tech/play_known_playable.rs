//! Play a card whose every remaining identity is playable.
use vstd::prelude::*;
use crate::bits::{group_bits, in_mask, test_bit};
use crate::engine::game_state_snapshot::GameStateSnapshot;
use crate::engine::knowledge::knowledge_update::{hyp_empty, Hypothesis, HypothesisView};
use crate::engine::knowledge::lightweight_player_pov::LightweightPlayerPOV;
use crate::engine::knowledge::player_knowledge::{has_play_in, KnowledgeView};
use crate::game::action::{GameAction, GameActionView};
use crate::game::card::CardDeckIndex;
use crate::game::table_state::TableState;
use crate::game::variant::Variant;
use crate::game::{PlayerIndex, MAX_CARDS_IN_DECK};

verus! {

broadcast use group_bits;

/// Trivial technique: play a card known to be playable from the active player's empathy.
/// Untouched cards carrying a play signal are left to blind plays.
pub struct PlayKnownPlayable;

/// Every identity the holder (knowing `kv`) allows is playable, and no baseline play signal
/// sits on the card.
pub open spec fn known_playable_card(kv: KnowledgeView, ts: &TableState, v: &Variant, idx: int) -> bool {
    let c = kv.combined(idx, ts, v);
    &&& c != 0
    &&& c & ts.playable_mask(v) == c
    &&& !has_play_in(kv.signals[idx])
}

/// Plays of the known-playable cards among deck positions `0..n` of the player on turn.
pub open spec fn known_playable_plays(pov: LightweightPlayerPOV, n: int) -> Seq<GameActionView>
    decreases n,
{
    if n <= 0 {
        Seq::empty()
    } else {
        let prev = known_playable_plays(pov, n - 1);
        let p = pov.ts().active_player_index;
        let kv = pov.team().view_of(p as int);
        if in_mask(kv.own_hand, n - 1) && known_playable_card(kv, &pov.ts(), &pov.v(), n - 1) {
            prev.push(GameActionView::Play { player_index: p, card_deck_index: (n - 1) as u8, turn: pov.ts().current_turn })
        } else {
            prev
        }
    }
}

/// To a player knowing `kv`, card `idx` is playable whatever it is: its combined
/// identities are not empty, each is the next card of its stack, and no play signal sits
/// on it.
pub open spec fn playable_whatever_it_is(kv: KnowledgeView, ts: TableState, v: Variant, idx: int) -> bool {
    let c = kv.combined(idx, &ts, &v);
    &&& c != 0
    &&& forall|i: int| #[trigger] in_mask(c, i) ==> 0 <= i < v.total_ids() && ts.stack(i / 5) == i % 5
    &&& !has_play_in(kv.signals[idx])
}

/// A card is known playable exactly when it is playable whatever it is.
pub proof fn lemma_known_playable_card(kv: KnowledgeView, ts: TableState, v: Variant, idx: int)
    ensures
        known_playable_card(kv, &ts, &v, idx) <==> playable_whatever_it_is(kv, ts, v, idx),
{
    let c = kv.combined(idx, &ts, &v);
    let pm = ts.playable_mask(&v);
    crate::bits::lemma_mask_of(v.total_ids(), |i: int| ts.is_playable_id(&v, i));
    crate::bits::lemma_and_eq_iff(c, pm);
    if playable_whatever_it_is(kv, ts, v, idx) {
        assert forall|i: int| in_mask(c, i) implies in_mask(pm, i) by {
            assert(0 <= i < v.total_ids() && ts.stack(i / 5) == i % 5);
        }
    }
    if known_playable_card(kv, &ts, &v, idx) {
        assert forall|i: int| #[trigger] in_mask(c, i) implies 0 <= i < v.total_ids() && ts.stack(i / 5) == i % 5 by {
            assert(in_mask(pm, i));
        }
    }
}

/// A play of an own card of the player on turn that is playable whatever it is: its
/// combined identities are not empty, each is the next card of its stack, and no play
/// signal sits on it.
pub open spec fn sure_play(pov: LightweightPlayerPOV, a: GameActionView) -> bool {
    match a {
        GameActionView::Play { player_index, card_deck_index, turn } => {
            let kv = pov.team().view_of(player_index as int);
            let c = kv.combined(card_deck_index as int, &pov.ts(), &pov.v());
            &&& player_index == pov.ts().active_player_index
            &&& turn == pov.ts().current_turn
            &&& in_mask(kv.own_hand, card_deck_index as int)
            &&& c != 0
            &&& forall|i: int| #[trigger] in_mask(c, i) ==> 0 <= i < pov.v().total_ids() && pov.ts().stack(i / 5) == i % 5
            &&& !has_play_in(kv.signals[card_deck_index as int])
        },
        _ => false,
    }
}

/// Whether own card `idx` of the player on turn is playable whatever it is.
pub open spec fn surely_playable(pov: LightweightPlayerPOV, idx: int) -> bool {
    let kv = pov.team().view_of(pov.ts().active_player_index as int);
    let c = kv.combined(idx, &pov.ts(), &pov.v());
    &&& in_mask(kv.own_hand, idx)
    &&& c != 0
    &&& forall|i: int| #[trigger] in_mask(c, i) ==> 0 <= i < pov.v().total_ids() && pov.ts().stack(i / 5) == i % 5
    &&& !has_play_in(kv.signals[idx])
}

/// The plays of known-playable cards among deck positions `0..n` are exactly the plays of
/// the cards of the player on turn that are playable whatever they are: every proposed play
/// is one, and every such card is played.
pub proof fn lemma_known_playable_plays(pov: LightweightPlayerPOV, n: int)
    ensures
        forall|k: int| 0 <= k < known_playable_plays(pov, n).len() ==> sure_play(pov, #[trigger] known_playable_plays(pov, n)[k]),
        forall|idx: int| 0 <= idx < n && #[trigger] surely_playable(pov, idx) ==> known_playable_plays(pov, n).contains(
            GameActionView::Play { player_index: pov.ts().active_player_index, card_deck_index: idx as u8, turn: pov.ts().current_turn },
        ),
    decreases n,
{
    if n > 0 {
        lemma_known_playable_plays(pov, n - 1);
        let p = pov.ts().active_player_index;
        let kv = pov.team().view_of(p as int);
        let c = kv.combined(n - 1, &pov.ts(), &pov.v());
        let pm = pov.ts().playable_mask(&pov.v());
        crate::bits::lemma_mask_of(pov.v().total_ids(), |i: int| pov.ts().is_playable_id(&pov.v(), i));
        crate::bits::lemma_and_eq_iff(c, pm);
        let prev = known_playable_plays(pov, n - 1);
        let cur = known_playable_plays(pov, n);
        let a = GameActionView::Play { player_index: p, card_deck_index: (n - 1) as u8, turn: pov.ts().current_turn };
        if in_mask(kv.own_hand, n - 1) && known_playable_card(kv, &pov.ts(), &pov.v(), n - 1) {
            assert(cur == prev.push(a));
            assert forall|k: int| 0 <= k < cur.len() implies sure_play(pov, #[trigger] cur[k]) by {
                if k < prev.len() {
                    assert(cur[k] == prev[k]);
                } else {
                    assert(cur[k] == a);
                    assert(((n - 1) as u8) as int == n - 1);
                    assert forall|i: int| #[trigger] in_mask(c, i) implies 0 <= i < pov.v().total_ids() && pov.ts().stack(i / 5) == i % 5 by {
                        assert(in_mask(pm, i));
                    }
                }
            }
            assert forall|idx: int| 0 <= idx < n && #[trigger] surely_playable(pov, idx) implies cur.contains(
                GameActionView::Play { player_index: p, card_deck_index: idx as u8, turn: pov.ts().current_turn },
            ) by {
                if idx < n - 1 {
                    let w = GameActionView::Play { player_index: p, card_deck_index: idx as u8, turn: pov.ts().current_turn };
                    let j = choose|j: int| 0 <= j < prev.len() && prev[j] == w;
                    assert(cur[j] == w);
                } else {
                    assert(cur[prev.len() as int] == a);
                }
            }
        } else {
            assert forall|idx: int| 0 <= idx < n && #[trigger] surely_playable(pov, idx) implies cur.contains(
                GameActionView::Play { player_index: p, card_deck_index: idx as u8, turn: pov.ts().current_turn },
            ) by {
                if idx == n - 1 {
                    assert forall|i: int| in_mask(c, i) implies in_mask(pm, i) by {
                        assert(0 <= i < pov.v().total_ids() && pov.ts().stack(i / 5) == i % 5);
                    }
                    assert(false);
                }
            }
        }
    }
}

impl PlayKnownPlayable {
    /// Plays of every card of the player on turn that its empathy shows playable.
    pub fn play_game_actions(&self, active_player_pov: &LightweightPlayerPOV) -> (r: Vec<GameAction>)
        requires
            active_player_pov.wf(),
        ensures
            r@.map_values(|a: GameAction| a@) == known_playable_plays(*active_player_pov, MAX_CARDS_IN_DECK as int),
            forall|k: int| 0 <= k < r@.len() ==> sure_play(*active_player_pov, #[trigger] r@[k]@),
            forall|idx: int| 0 <= idx < MAX_CARDS_IN_DECK && #[trigger] surely_playable(*active_player_pov, idx) ==> exists|k: int|
                0 <= k < r@.len() && r@[k]@ == (GameActionView::Play {
                    player_index: active_player_pov.ts().active_player_index,
                    card_deck_index: idx as u8,
                    turn: active_player_pov.ts().current_turn,
                }),
    {
        proof {
            active_player_pov.lemma_wf();
            active_player_pov.team().lemma_wf();
        }
        let player_index = active_player_pov.active_player_index();
        let knowledge = active_player_pov.team_knowledge().player(player_index);
        let table_state = active_player_pov.table_state();
        let static_data = active_player_pov.static_data();
        let playable = table_state.playable_cards(static_data);
        let mut actions: Vec<GameAction> = Vec::new();
        let mut idx: u8 = 0;
        assert(actions@.map_values(|a: GameAction| a@) =~= known_playable_plays(*active_player_pov, 0));
        while idx < MAX_CARDS_IN_DECK as u8
            invariant
                active_player_pov.wf(),
                table_state.wf(static_data),
                *table_state == active_player_pov.ts(),
                *static_data == active_player_pov.sd(),
                player_index == active_player_pov.ts().active_player_index,
                knowledge.wf(),
                knowledge@ == active_player_pov.team().view_of(player_index as int),
                playable == table_state.playable_mask(&static_data.variant),
                idx <= MAX_CARDS_IN_DECK,
                actions@.map_values(|a: GameAction| a@) == known_playable_plays(*active_player_pov, idx as int),
            decreases MAX_CARDS_IN_DECK - idx,
        {
            let ghost before = actions@;
            if test_bit(knowledge.own_hand, idx) {
                let has_play_signal = knowledge.signals[idx as usize].has_play();
                let bits = knowledge.combined_possible_identities(idx, table_state, static_data).as_bits();
                if bits != 0 && (bits & playable) == bits && !has_play_signal {
                    actions.push(GameAction::Play { player_index, card_deck_index: idx, turn: table_state.current_turn });
                }
            }
            assert(actions@.map_values(|a: GameAction| a@) =~= known_playable_plays(*active_player_pov, idx + 1));
            idx += 1;
        }
        proof {
            let plays = known_playable_plays(*active_player_pov, MAX_CARDS_IN_DECK as int);
            lemma_known_playable_plays(*active_player_pov, MAX_CARDS_IN_DECK as int);
            assert forall|k: int| 0 <= k < actions@.len() implies sure_play(*active_player_pov, #[trigger] actions@[k]@) by {
                assert(actions@.map_values(|a: GameAction| a@)[k] == actions@[k]@);
            }
            assert forall|idx: int| 0 <= idx < MAX_CARDS_IN_DECK && #[trigger] surely_playable(*active_player_pov, idx) implies exists|k: int|
                0 <= k < actions@.len() && actions@[k]@ == (GameActionView::Play {
                    player_index: active_player_pov.ts().active_player_index,
                    card_deck_index: idx as u8,
                    turn: active_player_pov.ts().current_turn,
                }) by {
                let w = GameActionView::Play {
                    player_index: active_player_pov.ts().active_player_index,
                    card_deck_index: idx as u8,
                    turn: active_player_pov.ts().current_turn,
                };
                assert(plays.contains(w));
                let k = choose|k: int| 0 <= k < plays.len() && plays[k] == w;
                assert(actions@.map_values(|a: GameAction| a@)[k] == actions@[k]@);
            }
        }
        actions
    }

    /// The played card was known playable to `player_index`, as `observer_pov` tracks it.
    pub fn matches_play(
        &self,
        player_index: PlayerIndex,
        card_deck_index: CardDeckIndex,
        _turn: usize,
        _history: &[GameStateSnapshot],
        observer_pov: &LightweightPlayerPOV,
    ) -> (r: bool)
        requires
            observer_pov.wf(),
            player_index < observer_pov.sd().number_of_players,
            card_deck_index < MAX_CARDS_IN_DECK,
        ensures
            r == known_playable_card(observer_pov.team().view_of(player_index as int), &observer_pov.ts(), &observer_pov.v(), card_deck_index as int),
            r <==> playable_whatever_it_is(observer_pov.team().view_of(player_index as int), observer_pov.ts(), observer_pov.v(), card_deck_index as int),
    {
        proof {
            observer_pov.lemma_wf();
            observer_pov.team().lemma_wf();
            lemma_known_playable_card(observer_pov.team().view_of(player_index as int), observer_pov.ts(), observer_pov.v(), card_deck_index as int);
        }
        let knowledge = observer_pov.team_knowledge().player(player_index);
        let has_play_signal = knowledge.signals[card_deck_index as usize].has_play();
        let table_state = observer_pov.table_state();
        let playable = table_state.playable_cards(observer_pov.static_data());
        let bits = knowledge.combined_possible_identities(card_deck_index, table_state, observer_pov.static_data()).as_bits();
        bits != 0 && (bits & playable) == bits && !has_play_signal
    }

    /// A known-playable play teaches nothing.
    pub fn play_knowledge_updates(
        &self,
        _player_index: PlayerIndex,
        _card: CardDeckIndex,
        _turn: usize,
        _history: &[GameStateSnapshot],
        _observer_pov: &LightweightPlayerPOV,
    ) -> (r: Hypothesis)
        ensures
            r@ == hyp_empty(),
    {
        Hypothesis::empty()
    }
}

} // verus!
