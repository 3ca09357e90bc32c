//! Core H-Group notions: chop, clue focus, finesse position, good touch.
use vstd::prelude::*;
use crate::bits::{group_bits, in_mask, single, positions_mask, bit, test_bit, is_singleton, singleton_of, mask_of, lemma_mask_of_eq};
use crate::engine::knowledge::lightweight_player_pov::LightweightPlayerPOV;
use crate::engine::knowledge::player_knowledge::has_play_in;
use crate::engine::knowledge::team_knowledge::TeamKnowledge;
use crate::game::action::{GameAction, GameActionView, TouchedCards};
use crate::game::card::{known_id, lemma_known_id_bits, CardIdentityMask, CardDeckIndex, VariantCardId, VariantCardsBitField};
use crate::game::clue::{Clue, ClueType};
use crate::game::static_game_data::StaticGameData;
use crate::game::table_state::{slice_contains, TableState};
use crate::game::{PlayerIndex, MAX_CARDS_IN_DECK, MAX_CLUE_VALUES_PER_TYPE};

verus! {

broadcast use group_bits;

// ── Hand scans ───────────────────────────────────────────────────────────────

/// Cards of `s` whose identity `pov` knows and `mask` contains, order kept.
pub open spec fn known_in_mask(pov: LightweightPlayerPOV, s: Seq<u8>, mask: u64) -> Seq<u8>
    decreases s.len(),
{
    if s.len() == 0 {
        s
    } else {
        let rest = known_in_mask(pov, s.drop_last(), mask);
        if pov.card_id(s.last() as int) matches Some(id) && in_mask(mask, id as int) {
            rest.push(s.last())
        } else {
            rest
        }
    }
}

/// The last (oldest) card of `s` that no clue touched.
pub open spec fn last_untouched(ts: TableState, s: Seq<u8>) -> Option<u8>
    decreases s.len(),
{
    if s.len() == 0 {
        None
    } else if !ts.touched(s.last() as int) {
        Some(s.last())
    } else {
        last_untouched(ts, s.drop_last())
    }
}

/// The first (newest) card of `s` that no clue touched.
pub open spec fn first_untouched(ts: TableState, s: Seq<u8>) -> Option<u8>
    decreases s.len(),
{
    if s.len() == 0 {
        None
    } else if !ts.touched(s[0] as int) {
        Some(s[0])
    } else {
        first_untouched(ts, s.drop_first())
    }
}

/// The first card of `s` in `touched` and not touched before.
pub open spec fn first_newly_touched(ts: TableState, s: Seq<u8>, touched: Seq<u8>) -> Option<u8>
    decreases s.len(),
{
    if s.len() == 0 {
        None
    } else if touched.contains(s[0]) && !ts.touched(s[0] as int) {
        Some(s[0])
    } else {
        first_newly_touched(ts, s.drop_first(), touched)
    }
}

/// The first card of `s` in `touched`.
pub open spec fn first_in(s: Seq<u8>, touched: Seq<u8>) -> Option<u8>
    decreases s.len(),
{
    if s.len() == 0 {
        None
    } else if touched.contains(s[0]) {
        Some(s[0])
    } else {
        first_in(s.drop_first(), touched)
    }
}

/// Chop of player `p`: the oldest card no clue touched.
pub open spec fn chop(pov: LightweightPlayerPOV, p: int) -> Option<u8> {
    last_untouched(pov.ts(), pov.ts().hand(p))
}

/// Focus of a clue touching `touched` in player `p`'s hand: the chop when touched, else
/// the newest newly touched card, else the newest touched card.
pub open spec fn focus(pov: LightweightPlayerPOV, p: int, touched: Seq<u8>) -> Option<u8> {
    let hand = pov.ts().hand(p);
    let c = chop(pov, p);
    let newly = first_newly_touched(pov.ts(), hand, touched);
    if c is Some && touched.contains(c->0) {
        c
    } else if newly is Some {
        newly
    } else {
        first_in(hand, touched)
    }
}

/// Finesse position of player `p`: the newest card no clue touched.
pub open spec fn finesse_position(pov: LightweightPlayerPOV, p: int) -> Option<u8> {
    first_untouched(pov.ts(), pov.ts().hand(p))
}

/// The first card of `s` in `touched` is in both; when there is none, `touched` holds no
/// card of `s`.
pub proof fn lemma_first_in_member(s: Seq<u8>, touched: Seq<u8>)
    ensures
        first_in(s, touched) matches Some(c) ==> touched.contains(c) && s.contains(c),
        first_in(s, touched) is None ==> forall|k: int| 0 <= k < s.len() ==> !touched.contains(#[trigger] s[k]),
    decreases s.len(),
{
    if s.len() > 0 {
        lemma_first_in_member(s.drop_first(), touched);
        if !touched.contains(s[0]) {
            match first_in(s.drop_first(), touched) {
                Some(c) => {
                    let k = choose|k: int| 0 <= k < s.drop_first().len() && s.drop_first()[k] == c;
                    assert(s[k + 1] == c);
                },
                None => {},
            }
            assert forall|k: int| 0 <= k < s.len() && first_in(s, touched) is None implies !touched.contains(#[trigger] s[k]) by {
                if k > 0 {
                    assert(s[k] == s.drop_first()[k - 1]);
                }
            }
        } else {
            assert(s[0] == s[0]);
        }
    }
}

/// The first newly touched card of a hand is a card of the hand that the clue touches.
pub proof fn lemma_first_newly_touched_member(ts: TableState, s: Seq<u8>, touched: Seq<u8>)
    ensures
        first_newly_touched(ts, s, touched) matches Some(c) ==> touched.contains(c) && s.contains(c),
    decreases s.len(),
{
    if s.len() > 0 {
        lemma_first_newly_touched_member(ts, s.drop_first(), touched);
        match first_newly_touched(ts, s.drop_first(), touched) {
            Some(c) => {
                if !(touched.contains(s[0]) && !ts.touched(s[0] as int)) {
                    let k = choose|k: int| 0 <= k < s.drop_first().len() && s.drop_first()[k] == c;
                    assert(s[k + 1] == c);
                }
            },
            None => {},
        }
        assert(s[0] == s[0]);
    }
}

/// Deck position `c` is the oldest card of `hand` (newest first) that no clue touched.
pub open spec fn is_oldest_untouched(ts: TableState, hand: Seq<u8>, c: u8) -> bool {
    exists|k: int|
        0 <= k < hand.len() && #[trigger] hand[k] == c && !ts.touched(c as int) && forall|j: int| k < j < hand.len() ==> ts.touched(#[trigger] hand[j] as int)
}

/// The last untouched card of a hand is its oldest untouched card, and no other card is.
pub proof fn lemma_last_untouched_is_oldest(ts: TableState, s: Seq<u8>)
    ensures
        last_untouched(ts, s) matches Some(c) ==> is_oldest_untouched(ts, s, c),
        forall|c: u8| #[trigger] is_oldest_untouched(ts, s, c) ==> last_untouched(ts, s) == Some(c),
    decreases s.len(),
{
    if s.len() > 0 {
        let t = s.drop_last();
        lemma_last_untouched_is_oldest(ts, t);
        let n = s.len() - 1;
        assert(s[n] == s.last());
        if !ts.touched(s.last() as int) {
            assert(s[n] == s.last() && !ts.touched(s.last() as int));
            assert forall|c: u8| #[trigger] is_oldest_untouched(ts, s, c) implies last_untouched(ts, s) == Some(c) by {
                let k = choose|k: int|
                    0 <= k < s.len() && #[trigger] s[k] == c && !ts.touched(c as int) && forall|j: int| k < j < s.len() ==> ts.touched(#[trigger] s[j] as int);
                if k < n {
                    assert(ts.touched(s[n] as int));
                }
            }
        } else {
            match last_untouched(ts, t) {
                Some(c) => {
                    let k = choose|k: int|
                        0 <= k < t.len() && #[trigger] t[k] == c && !ts.touched(c as int) && forall|j: int| k < j < t.len() ==> ts.touched(#[trigger] t[j] as int);
                    assert(s[k] == c);
                    assert forall|j: int| k < j < s.len() implies ts.touched(#[trigger] s[j] as int) by {
                        if j < n {
                            assert(s[j] == t[j]);
                        }
                    }
                },
                None => {},
            }
            assert forall|c: u8| #[trigger] is_oldest_untouched(ts, s, c) implies last_untouched(ts, s) == Some(c) by {
                let k = choose|k: int|
                    0 <= k < s.len() && #[trigger] s[k] == c && !ts.touched(c as int) && forall|j: int| k < j < s.len() ==> ts.touched(#[trigger] s[j] as int);
                assert(k < n);
                assert(t[k] == c);
                assert forall|j: int| k < j < t.len() implies ts.touched(#[trigger] t[j] as int) by {
                    assert(s[j] == t[j]);
                }
                assert(is_oldest_untouched(ts, t, c));
            }
        }
    }
}

/// The chop is an untouched card of the hand; a hand without a chop is fully touched.
pub proof fn lemma_last_untouched_member(ts: TableState, s: Seq<u8>)
    ensures
        last_untouched(ts, s) matches Some(c) ==> s.contains(c) && !ts.touched(c as int),
        last_untouched(ts, s) is None ==> forall|k: int| 0 <= k < s.len() ==> ts.touched(#[trigger] s[k] as int),
    decreases s.len(),
{
    if s.len() > 0 {
        lemma_last_untouched_member(ts, s.drop_last());
        match last_untouched(ts, s.drop_last()) {
            Some(c) => {
                let k = choose|k: int| 0 <= k < s.drop_last().len() && s.drop_last()[k] == c;
                assert(s[k] == c);
            },
            None => {},
        }
        assert(s[s.len() - 1] == s.last());
        assert forall|k: int| 0 <= k < s.len() && last_untouched(ts, s) is None implies ts.touched(#[trigger] s[k] as int) by {
            if k < s.len() - 1 {
                assert(s[k] == s.drop_last()[k]);
            }
        }
    }
}

/// Cards of `hand` whose identity `pov` knows and `mask` contains, order kept.
fn known_cards_in_mask(pov: &LightweightPlayerPOV, hand: &[CardDeckIndex], mask: u64) -> (r: Vec<CardDeckIndex>)
    requires
        pov.wf(),
        forall|k: int| 0 <= k < hand@.len() ==> #[trigger] hand@[k] < MAX_CARDS_IN_DECK,
    ensures
        r@ == known_in_mask(*pov, hand@, mask),
        forall|k: int| 0 <= k < r@.len() ==> #[trigger] r@[k] < MAX_CARDS_IN_DECK,
{
    let mut out: Vec<CardDeckIndex> = Vec::new();
    let mut k: usize = 0;
    while k < hand.len()
        invariant
            pov.wf(),
            k <= hand@.len(),
            forall|j: int| 0 <= j < hand@.len() ==> #[trigger] hand@[j] < MAX_CARDS_IN_DECK,
            out@ == known_in_mask(*pov, hand@.subrange(0, k as int), mask),
            forall|j: int| 0 <= j < out@.len() ==> #[trigger] out@[j] < MAX_CARDS_IN_DECK,
        decreases hand.len() - k,
    {
        let idx = hand[k];
        proof {
            let s = hand@.subrange(0, k + 1);
            assert(s.drop_last() == hand@.subrange(0, k as int));
            assert(s.last() == idx);
        }
        match pov.card_identity(idx) {
            Some(id) => {
                if test_bit(mask, id) {
                    out.push(idx);
                }
            },
            None => {},
        }
        k += 1;
    }
    assert(hand@.subrange(0, hand@.len() as int) == hand@);
    out
}

/// Deck positions of `player_index`'s cards that `clue` touches, as `player_pov` sees them.
pub fn touched_cards_for_clue(player_index: PlayerIndex, clue: &Clue, player_pov: &LightweightPlayerPOV) -> (r: TouchedCards)
    requires
        player_pov.wf(),
        player_index < player_pov.sd().number_of_players,
    ensures
        r@ == known_in_mask(*player_pov, player_pov.ts().hand(player_index as int), player_pov.v().clue_mask(clue.clue_type, clue.clue_value as int)),
        forall|k: int| 0 <= k < r@.len() ==> #[trigger] r@[k] < MAX_CARDS_IN_DECK,
{
    proof {
        player_pov.lemma_wf();
    }
    let empathy_mask = player_pov.static_data().variant.empathy_for_clue(clue);
    let hand = player_pov.table_state().hands[player_index].as_slice();
    TouchedCards::from_indexes(known_cards_in_mask(player_pov, hand, empathy_mask))
}

/// Chop of `player_index`: the oldest card no clue touched.
pub fn get_chop_index(player_index: usize, player_pov: &LightweightPlayerPOV) -> (r: Option<CardDeckIndex>)
    requires
        player_pov.wf(),
        player_index < player_pov.sd().number_of_players,
    ensures
        r == chop(*player_pov, player_index as int),
        r matches Some(c) ==> c < MAX_CARDS_IN_DECK,
{
    proof {
        player_pov.lemma_wf();
    }
    let hand = &player_pov.table_state().hands[player_index];
    let ghost ts = player_pov.ts();
    let mut k: usize = hand.len();
    assert(hand@.subrange(0, hand@.len() as int) == hand@);
    while k > 0
        invariant
            k <= hand@.len(),
            hand@ == ts.hand(player_index as int),
            forall|j: int| 0 <= j < hand@.len() ==> #[trigger] hand@[j] < MAX_CARDS_IN_DECK,
            last_untouched(ts, hand@) == last_untouched(ts, hand@.subrange(0, k as int)),
            ts == player_pov.ts(),
        decreases k,
    {
        let idx = hand[k - 1];
        proof {
            let s = hand@.subrange(0, k as int);
            assert(s.last() == idx);
            assert(s.drop_last() == hand@.subrange(0, k - 1));
        }
        if !player_pov.is_touched(idx) {
            return Some(idx);
        }
        k -= 1;
    }
    None
}

/// Focus of a clue touching `touched` in `player_index`'s hand.
pub fn get_clue_focus(player_index: PlayerIndex, touched: &[CardDeckIndex], player_pov: &LightweightPlayerPOV) -> (r: Option<CardDeckIndex>)
    requires
        player_pov.wf(),
        player_index < player_pov.sd().number_of_players,
    ensures
        r == focus(*player_pov, player_index as int, touched@),
        r matches Some(c) ==> touched@.contains(c) && player_pov.ts().hand(player_index as int).contains(c) && c < MAX_CARDS_IN_DECK,
{
    proof {
        player_pov.lemma_wf();
    }
    let chop_index = get_chop_index(player_index, player_pov);
    if let Some(c) = chop_index {
        if slice_contains(touched, c) {
            proof {
                lemma_last_untouched_member(player_pov.ts(), player_pov.ts().hand(player_index as int));
            }
            return Some(c);
        }
    }
    let hand = &player_pov.table_state().hands[player_index];
    let ghost ts = player_pov.ts();
    let ghost c0 = chop(*player_pov, player_index as int);
    assert(!(c0 is Some && touched@.contains(c0->0)));
    proof {
        lemma_first_newly_touched_member(ts, hand@, touched@);
        lemma_first_in_member(hand@, touched@);
        assert(hand@.subrange(0, hand@.len() as int) == hand@);
    }
    let mut k: usize = 0;
    while k < hand.len()
        invariant
            k <= hand@.len(),
            hand@ == ts.hand(player_index as int),
            ts == player_pov.ts(),
            c0 == chop(*player_pov, player_index as int),
            !(c0 is Some && touched@.contains(c0->0)),
            forall|j: int| 0 <= j < hand@.len() ==> #[trigger] hand@[j] < MAX_CARDS_IN_DECK,
            first_newly_touched(ts, hand@, touched@) == first_newly_touched(ts, hand@.subrange(k as int, hand@.len() as int), touched@),
            first_newly_touched(ts, hand@, touched@) matches Some(c) ==> touched@.contains(c) && hand@.contains(c),
        decreases hand.len() - k,
    {
        let idx = hand[k];
        proof {
            let s = hand@.subrange(k as int, hand@.len() as int);
            assert(s[0] == idx);
            assert(s.drop_first() == hand@.subrange(k + 1, hand@.len() as int));
        }
        if slice_contains(touched, idx) && !player_pov.is_touched(idx) {
            assert(hand@[k as int] == idx);
            return Some(idx);
        }
        k += 1;
    }
    assert(first_newly_touched(ts, hand@, touched@) is None);
    let mut k: usize = 0;
    while k < hand.len()
        invariant
            k <= hand@.len(),
            hand@ == ts.hand(player_index as int),
            ts == player_pov.ts(),
            c0 == chop(*player_pov, player_index as int),
            !(c0 is Some && touched@.contains(c0->0)),
            first_newly_touched(ts, hand@, touched@) is None,
            forall|j: int| 0 <= j < hand@.len() ==> #[trigger] hand@[j] < MAX_CARDS_IN_DECK,
            first_in(hand@, touched@) == first_in(hand@.subrange(k as int, hand@.len() as int), touched@),
            first_in(hand@, touched@) matches Some(c) ==> touched@.contains(c) && hand@.contains(c),
        decreases hand.len() - k,
    {
        let idx = hand[k];
        proof {
            let s = hand@.subrange(k as int, hand@.len() as int);
            assert(s[0] == idx);
            assert(s.drop_first() == hand@.subrange(k + 1, hand@.len() as int));
        }
        if slice_contains(touched, idx) {
            assert(hand@[k as int] == idx);
            return Some(idx);
        }
        k += 1;
    }
    None
}

/// Finesse position of `player_index`: the newest card no clue touched.
pub fn get_finesse_position(player_index: PlayerIndex, player_pov: &LightweightPlayerPOV) -> (r: Option<CardDeckIndex>)
    requires
        player_pov.wf(),
        player_index < player_pov.sd().number_of_players,
    ensures
        r == finesse_position(*player_pov, player_index as int),
        r matches Some(c) ==> c < MAX_CARDS_IN_DECK && player_pov.ts().hand(player_index as int).contains(c),
{
    proof {
        player_pov.lemma_wf();
    }
    let hand = &player_pov.table_state().hands[player_index];
    let ghost ts = player_pov.ts();
    let mut k: usize = 0;
    assert(hand@.subrange(0, hand@.len() as int) == hand@);
    while k < hand.len()
        invariant
            k <= hand@.len(),
            hand@ == ts.hand(player_index as int),
            ts == player_pov.ts(),
            forall|j: int| 0 <= j < hand@.len() ==> #[trigger] hand@[j] < MAX_CARDS_IN_DECK,
            first_untouched(ts, hand@) == first_untouched(ts, hand@.subrange(k as int, hand@.len() as int)),
        decreases hand.len() - k,
    {
        let idx = hand[k];
        proof {
            let s = hand@.subrange(k as int, hand@.len() as int);
            assert(s[0] == idx);
            assert(s.drop_first() == hand@.subrange(k + 1, hand@.len() as int));
        }
        if !player_pov.is_touched(idx) {
            assert(hand@[k as int] == idx);
            return Some(idx);
        }
        k += 1;
    }
    None
}

/// `player_index` already holds a baseline play signal on the card.
pub fn has_pending_play_signal(player_index: PlayerIndex, card_deck_index: CardDeckIndex, pov: &LightweightPlayerPOV) -> (r: bool)
    requires
        pov.wf(),
        player_index < pov.sd().number_of_players,
        card_deck_index < MAX_CARDS_IN_DECK,
    ensures
        r == has_play_in(pov.team().view_of(player_index as int).signals[card_deck_index as int]),
{
    proof {
        pov.lemma_wf();
        pov.team().lemma_wf();
    }
    pov.team_knowledge().player(player_index).signals[card_deck_index as usize].has_play()
}

// ── Clue enumeration ─────────────────────────────────────────────────────────

/// The clue of type `t` and value `v` to `target`, with its focus, when it touches a card
/// whose identity `pov` knows.
pub open spec fn clue_option(pov: LightweightPlayerPOV, target: int, t: ClueType, v: int) -> Option<(GameActionView, u8)> {
    let touched = known_in_mask(pov, pov.ts().hand(target), pov.v().clue_mask(t, v));
    if touched.len() == 0 {
        None
    } else {
        match focus(pov, target, touched) {
            Some(f) => Some(
                (
                    GameActionView::Clue {
                        player_index: target as usize,
                        touched,
                        clue: Clue { clue_type: t, clue_value: v as u8 },
                        turn: pov.ts().current_turn,
                    },
                    f,
                ),
            ),
            None => None,
        }
    }
}

/// Clue options of type `t` with values `0..nv`, in value order.
pub open spec fn options_for_type(pov: LightweightPlayerPOV, target: int, t: ClueType, nv: int) -> Seq<(GameActionView, u8)>
    decreases nv,
{
    if nv <= 0 {
        Seq::empty()
    } else {
        let prev = options_for_type(pov, target, t, nv - 1);
        match clue_option(pov, target, t, nv - 1) {
            Some(o) => prev.push(o),
            None => prev,
        }
    }
}

/// Clue options of the first `nt` clue types of the variant, in type order.
pub open spec fn clue_options(pov: LightweightPlayerPOV, target: int, nt: int) -> Seq<(GameActionView, u8)>
    decreases nt,
{
    if nt <= 0 {
        Seq::empty()
    } else {
        clue_options(pov, target, nt - 1) + options_for_type(pov, target, pov.v().clue_types@[nt - 1], MAX_CLUE_VALUES_PER_TYPE as int)
    }
}

/// Every clue `pov` can give `target` that touches a card it knows, with its focus; none
/// without a clue token.
pub open spec fn clues_with_focus(pov: LightweightPlayerPOV, target: int) -> Seq<(GameActionView, u8)> {
    if pov.ts().clue_tokens == 0 {
        Seq::empty()
    } else {
        clue_options(pov, target, pov.v().clue_types@.len() as int)
    }
}

/// A clue action whose receiver is seated and whose touched cards are deck positions.
pub open spec fn clue_action_wf(a: GameActionView, n: int) -> bool {
    match a {
        GameActionView::Clue { player_index, touched, .. } => player_index < n && forall|k: int|
            0 <= k < touched.len() ==> #[trigger] touched[k] < MAX_CARDS_IN_DECK,
        _ => true,
    }
}

/// Views of action and focus pairs.
pub open spec fn pairs_view(s: Seq<(GameAction, CardDeckIndex)>) -> Seq<(GameActionView, u8)> {
    s.map_values(|p: (GameAction, CardDeckIndex)| (p.0@, p.1))
}

/// Every clue that touches at least one card of `target_player_index` whose identity
/// `player_pov` knows, paired with its focus.
pub fn clues_for_player_with_focus(target_player_index: usize, player_pov: &LightweightPlayerPOV) -> (r: Vec<(GameAction, CardDeckIndex)>)
    requires
        player_pov.wf(),
        target_player_index < player_pov.sd().number_of_players,
    ensures
        pairs_view(r@) == clues_with_focus(*player_pov, target_player_index as int),
        forall|k: int| 0 <= k < r@.len() ==> (#[trigger] r@[k]).1 < MAX_CARDS_IN_DECK && clue_action_wf(r@[k].0@, player_pov.sd().number_of_players as int),
{
    proof {
        player_pov.lemma_wf();
    }
    let table_state = player_pov.table_state();
    let static_data = player_pov.static_data();
    let mut result: Vec<(GameAction, CardDeckIndex)> = Vec::new();
    if table_state.whole_clue_tokens_count() == 0 {
        assert(pairs_view(result@) =~= Seq::empty());
        return result;
    }
    let hand = table_state.hands[target_player_index].as_slice();
    let types = &static_data.variant.clue_types;
    let mut ti: usize = 0;
    assert(pairs_view(result@) =~= clue_options(*player_pov, target_player_index as int, 0));
    while ti < types.len()
        invariant
            player_pov.wf(),
            player_pov.ts().wf(&player_pov.sd()),
            target_player_index < player_pov.sd().number_of_players,
            *table_state == player_pov.ts(),
            *static_data == player_pov.sd(),
            hand@ == player_pov.ts().hand(target_player_index as int),
            *types == player_pov.v().clue_types,
            ti <= types@.len(),
            pairs_view(result@) == clue_options(*player_pov, target_player_index as int, ti as int),
            forall|k: int| 0 <= k < result@.len() ==> (#[trigger] result@[k]).1 < MAX_CARDS_IN_DECK && clue_action_wf(result@[k].0@, player_pov.sd().number_of_players as int),
        decreases types.len() - ti,
    {
        let t = types[ti];
        let mut v: u8 = 0;
        let ghost base = clue_options(*player_pov, target_player_index as int, ti as int);
        assert(base + options_for_type(*player_pov, target_player_index as int, t, 0) =~= base);
        while v < MAX_CLUE_VALUES_PER_TYPE
            invariant
                player_pov.wf(),
                player_pov.ts().wf(&player_pov.sd()),
                target_player_index < player_pov.sd().number_of_players,
                *table_state == player_pov.ts(),
                *static_data == player_pov.sd(),
                hand@ == player_pov.ts().hand(target_player_index as int),
                v <= MAX_CLUE_VALUES_PER_TYPE,
                base == clue_options(*player_pov, target_player_index as int, ti as int),
                pairs_view(result@) == base + options_for_type(*player_pov, target_player_index as int, t, v as int),
                forall|k: int| 0 <= k < result@.len() ==> (#[trigger] result@[k]).1 < MAX_CARDS_IN_DECK && clue_action_wf(result@[k].0@, player_pov.sd().number_of_players as int),
            decreases MAX_CLUE_VALUES_PER_TYPE - v,
        {
            let ghost before = result@;
            let empathy_bits = static_data.variant.empathy_by_clue(t, v);
            let touched = known_cards_in_mask(player_pov, hand, empathy_bits);
            if touched.len() > 0 {
                let clue = Clue { clue_type: t, clue_value: v };
                let focus_idx = get_clue_focus(target_player_index, touched.as_slice(), player_pov);
                if let Some(f) = focus_idx {
                    let action = GameAction::Clue {
                        player_index: target_player_index,
                        touched_card_deck_indexes: TouchedCards::from_indexes(touched),
                        clue,
                        turn: table_state.current_turn,
                    };
                    result.push((action, f));
                    assert(pairs_view(result@) =~= pairs_view(before).push(clue_option(*player_pov, target_player_index as int, t, v as int)->0));
                }
            }
            proof {
                assert(pairs_view(result@) =~= base + options_for_type(*player_pov, target_player_index as int, t, v + 1));
            }
            v += 1;
        }
        ti += 1;
    }
    result
}

/// A clue is MCVP-compliant when it touches at least one card not clued before.
/// Some card of `s` was not touched by a clue before.
pub open spec fn has_untouched(pov: LightweightPlayerPOV, s: Seq<u8>) -> bool {
    exists|k: int| 0 <= k < s.len() && !pov.ts().touched(#[trigger] s[k] as int)
}

pub fn is_minimal_clue_value_compliant(
    _clue: &Clue,
    _clue_receiver_player_index: &PlayerIndex,
    touched_cards: &[CardDeckIndex],
    player_pov: &LightweightPlayerPOV,
) -> (r: bool)
    ensures
        r == has_untouched(*player_pov, touched_cards@),
{
    let already_touched = player_pov.table_state().clue_touched_cards;
    let mut k: usize = 0;
    while k < touched_cards.len()
        invariant
            k <= touched_cards@.len(),
            already_touched == player_pov.ts().clue_touched_cards,
            forall|j: int| 0 <= j < k ==> player_pov.ts().touched(#[trigger] touched_cards@[j] as int),
        decreases touched_cards.len() - k,
    {
        let idx = touched_cards[k];
        if idx >= 64 || !test_bit(already_touched, idx) {
            assert(!player_pov.ts().touched(touched_cards@[k as int] as int));
            return true;
        }
        k += 1;
    }
    false
}

// ── Good touch ───────────────────────────────────────────────────────────────

/// Identity `id` is still needed: not yet played and some copy left.
pub open spec fn still_needed(ts: &TableState, sd: &StaticGameData, id: int) -> bool {
    &&& 0 <= id < sd.variant.total_ids()
    &&& id % 5 >= ts.stack(id / 5)
    &&& ts.discarded(id) < sd.variant.copies(id)
}

pub open spec fn still_needed_mask(ts: &TableState, sd: &StaticGameData) -> u64 {
    mask_of(sd.variant.total_ids(), |i: int| still_needed(ts, sd, i))
}

/// The still-needed set only shrinks as the game goes on: on a board whose stacks are
/// no lower and whose discard pile holds no fewer copies of each identity, no identity
/// becomes needed again.
pub proof fn lemma_still_needed_never_grows(ts: &TableState, ts2: &TableState, sd: &StaticGameData)
    requires
        forall|s: int| 0 <= s < sd.variant.number_of_suits ==> #[trigger] ts2.stack(s) >= ts.stack(s),
        forall|id: int| 0 <= id < sd.variant.total_ids() ==> #[trigger] ts2.discarded(id) >= ts.discarded(id),
    ensures
        still_needed_mask(ts2, sd) & !still_needed_mask(ts, sd) == 0,
        forall|i: int| #[trigger] still_needed(ts2, sd, i) ==> still_needed(ts, sd, i),
{
    assert forall|i: int| #[trigger] still_needed(ts2, sd, i) implies still_needed(ts, sd, i) by {
        assert(0 <= i / 5 < sd.variant.number_of_suits);
        assert(ts2.stack(i / 5) >= ts.stack(i / 5));
        assert(ts2.discarded(i) >= ts.discarded(i));
    }
    crate::bits::lemma_mask_of(sd.variant.total_ids(), |i: int| still_needed(ts, sd, i));
    crate::bits::lemma_mask_of(sd.variant.total_ids(), |i: int| still_needed(ts2, sd, i));
    crate::bits::lemma_subset_iff(still_needed_mask(ts2, sd), still_needed_mask(ts, sd));
    assert forall|i: int| in_mask(still_needed_mask(ts2, sd), i) implies in_mask(still_needed_mask(ts, sd), i) by {
        assert(still_needed(ts2, sd, i));
    }
}

/// Identities still needed to complete the stacks.
pub fn still_needed_cards_mask(table_state: &TableState, static_data: &StaticGameData) -> (r: VariantCardsBitField)
    requires
        table_state.wf(static_data),
    ensures
        r == still_needed_mask(table_state, static_data),
        forall|i: int| #[trigger] in_mask(r, i) <==> still_needed(table_state, static_data, i),
{
    let suits = static_data.variant.number_of_suits;
    let mut needed: u64 = 0;
    let mut suit: u8 = 0;
    while suit < suits
        invariant
            table_state.wf(static_data),
            suits == static_data.variant.number_of_suits,
            suit <= suits,
            forall|i: int| #[trigger] in_mask(needed, i) <==> (still_needed(table_state, static_data, i) && i / 5 < suit),
        decreases suits - suit,
    {
        let stack_top = table_state.stack_size(static_data, suit as usize);
        let mut rank_idx: u8 = stack_top;
        while rank_idx < 5
            invariant
                table_state.wf(static_data),
                suits == static_data.variant.number_of_suits,
                suit < suits,
                stack_top == table_state.stack(suit as int),
                stack_top <= rank_idx <= 5,
                forall|i: int| #[trigger] in_mask(needed, i) <==> (still_needed(table_state, static_data, i) && (i / 5 < suit || (i / 5 == suit && i % 5 < rank_idx))),
            decreases 5 - rank_idx,
        {
            let card_id = suit * 5 + rank_idx;
            let total = static_data.variant.copies_of(card_id);
            let discarded = table_state.copies_discarded(static_data, card_id);
            if discarded < total {
                needed = needed | bit(card_id);
            }
            rank_idx += 1;
        }
        suit += 1;
    }
    proof {
        lemma_mask_of_eq(needed, static_data.variant.total_ids(), |i: int| still_needed(table_state, static_data, i));
    }
    needed
}

/// Identity `i` is publicly known on a clued card of a hand other than `receiver`'s.
pub open spec fn clued_elsewhere(ts: &TableState, sd: &StaticGameData, receiver: int, i: int) -> bool {
    exists|p: int, k: int|
        0 <= p < sd.number_of_players && p != receiver && 0 <= k < ts.hand(p).len() && ts.touched(ts.hand(p)[k] as int)
            && #[trigger] known_id(ts.empathy_of(ts.hand(p)[k] as int)) == Some(i as u8) && 0 <= i < 64
}

/// Identities exactly known and already clued in hands other than `receiver`'s.
pub fn already_clued_ids_mask(receiver: PlayerIndex, table_state: &TableState, static_data: &StaticGameData) -> (r: VariantCardsBitField)
    requires
        table_state.wf(static_data),
    ensures
        forall|i: int| #[trigger] in_mask(r, i) <==> clued_elsewhere(table_state, static_data, receiver as int, i),
{
    let num_players = static_data.num_players();
    let mut mask: u64 = 0;
    let mut p: usize = 0;
    while p < num_players
        invariant
            table_state.wf(static_data),
            num_players == static_data.number_of_players,
            p <= num_players,
            forall|i: int| #[trigger] in_mask(mask, i) <==> exists|q: int, k: int|
                0 <= q < p && q != receiver && 0 <= k < table_state.hand(q).len() && table_state.touched(table_state.hand(q)[k] as int)
                    && #[trigger] known_id(table_state.empathy_of(table_state.hand(q)[k] as int)) == Some(i as u8) && 0 <= i < 64,
        decreases num_players - p,
    {
        if p != receiver {
            let hand = &table_state.hands[p];
            let mut k: usize = 0;
            while k < hand.len()
                invariant
                    table_state.wf(static_data),
                    num_players == static_data.number_of_players,
                    p < num_players,
                    p != receiver,
                    hand@ == table_state.hand(p as int),
                    k <= hand@.len(),
                    forall|i: int| #[trigger] in_mask(mask, i) <==> exists|q: int, kk: int|
                        ((0 <= q < p && q != receiver && 0 <= kk < table_state.hand(q).len()) || (q == p && 0 <= kk < k))
                            && table_state.touched(table_state.hand(q)[kk] as int)
                            && #[trigger] known_id(table_state.empathy_of(table_state.hand(q)[kk] as int)) == Some(i as u8) && 0 <= i < 64,
                decreases hand.len() - k,
            {
                let idx = hand[k];
                assert(idx < MAX_CARDS_IN_DECK);
                let ghost old_mask = mask;
                if table_state.is_touched(idx) {
                    if let Some(id) = table_state.get_global_empathy(static_data, idx).known_card_id() {
                        proof {
                            lemma_known_id_bits(table_state.empathy_of(idx as int));
                        }
                        mask = mask | bit(id);
                    }
                }
                proof {
                    assert(table_state.hand(p as int)[k as int] == idx);
                    assert forall|i: int| #[trigger] in_mask(mask, i) <==> exists|q: int, kk: int|
                        ((0 <= q < p && q != receiver && 0 <= kk < table_state.hand(q).len()) || (q == p && 0 <= kk < k + 1))
                            && table_state.touched(table_state.hand(q)[kk] as int)
                            && #[trigger] known_id(table_state.empathy_of(table_state.hand(q)[kk] as int)) == Some(i as u8) && 0 <= i < 64 by {
                        let here = table_state.touched(idx as int) && known_id(table_state.empathy_of(idx as int)) == Some(i as u8) && 0 <= i < 64;
                        if here {
                            assert(known_id(table_state.empathy_of(table_state.hand(p as int)[k as int] as int)) == Some(i as u8));
                        }
                        if exists|q: int, kk: int|
                            ((0 <= q < p && q != receiver && 0 <= kk < table_state.hand(q).len()) || (q == p && 0 <= kk < k + 1))
                                && table_state.touched(table_state.hand(q)[kk] as int)
                                && #[trigger] known_id(table_state.empathy_of(table_state.hand(q)[kk] as int)) == Some(i as u8) && 0 <= i < 64 {
                            let (q, kk) = choose|q: int, kk: int|
                                ((0 <= q < p && q != receiver && 0 <= kk < table_state.hand(q).len()) || (q == p && 0 <= kk < k + 1))
                                    && table_state.touched(table_state.hand(q)[kk] as int)
                                    && #[trigger] known_id(table_state.empathy_of(table_state.hand(q)[kk] as int)) == Some(i as u8) && 0 <= i < 64;
                            if !(q == p && kk == k) {
                                assert(in_mask(old_mask, i));
                            }
                        }
                        if in_mask(old_mask, i) {
                            let (q, kk) = choose|q: int, kk: int|
                                ((0 <= q < p && q != receiver && 0 <= kk < table_state.hand(q).len()) || (q == p && 0 <= kk < k))
                                    && table_state.touched(table_state.hand(q)[kk] as int)
                                    && #[trigger] known_id(table_state.empathy_of(table_state.hand(q)[kk] as int)) == Some(i as u8) && 0 <= i < 64;
                            assert(known_id(table_state.empathy_of(table_state.hand(q)[kk] as int)) == Some(i as u8));
                        }
                    }
                }
                k += 1;
            }
        }
        proof {
            assert forall|i: int| #[trigger] in_mask(mask, i) <==> exists|q: int, k: int|
                0 <= q < p + 1 && q != receiver && 0 <= k < table_state.hand(q).len() && table_state.touched(table_state.hand(q)[k] as int)
                    && #[trigger] known_id(table_state.empathy_of(table_state.hand(q)[k] as int)) == Some(i as u8) && 0 <= i < 64 by {
                if exists|q: int, k: int|
                    0 <= q < p + 1 && q != receiver && 0 <= k < table_state.hand(q).len() && table_state.touched(table_state.hand(q)[k] as int)
                        && #[trigger] known_id(table_state.empathy_of(table_state.hand(q)[k] as int)) == Some(i as u8) && 0 <= i < 64 {
                    let (q, k) = choose|q: int, k: int|
                        0 <= q < p + 1 && q != receiver && 0 <= k < table_state.hand(q).len() && table_state.touched(table_state.hand(q)[k] as int)
                            && #[trigger] known_id(table_state.empathy_of(table_state.hand(q)[k] as int)) == Some(i as u8) && 0 <= i < 64;
                    assert(known_id(table_state.empathy_of(table_state.hand(q)[k] as int)) == Some(i as u8));
                }
            }
        }
        p += 1;
    }
    mask
}

/// Good-touch mask for a card a clue touched: identities the clue allows that are still
/// needed and not already clued elsewhere.
pub open spec fn good_touch_allows(clue: &Clue, receiver: int, ts: &TableState, sd: &StaticGameData, i: int) -> bool {
    &&& sd.variant.clue_touches(clue.clue_type, clue.clue_value as int, i)
    &&& still_needed(ts, sd, i)
    &&& !clued_elsewhere(ts, sd, receiver, i)
}

/// The good-touch narrowing of a clue ignores which of the receiver's own cards are
/// clued: with hands disjoint from the receiver's, a board that differs only in the
/// clue-touched marks of the receiver's cards allows the same identities.
pub proof fn lemma_good_touch_ignores_receiver_marks(clue: &Clue, receiver: int, ts: &TableState, ts2: &TableState, sd: &StaticGameData, i: int)
    requires
        forall|p: int| #[trigger] ts2.hand(p) == ts.hand(p),
        ts2.playing_stacks@ == ts.playing_stacks@,
        ts2.discard_pile@ == ts.discard_pile@,
        ts2.deck_empathy@ == ts.deck_empathy@,
        forall|c: int| ts.touched(c) != ts2.touched(c) ==> #[trigger] ts.hand(receiver).contains(c as u8),
        forall|p: int, k: int| 0 <= p < sd.number_of_players && p != receiver && 0 <= k < ts.hand(p).len()
            ==> !ts.hand(receiver).contains(#[trigger] ts.hand(p)[k]),
    ensures
        good_touch_allows(clue, receiver, ts2, sd, i) == good_touch_allows(clue, receiver, ts, sd, i),
{
    assert(still_needed(ts2, sd, i) == still_needed(ts, sd, i));
    if clued_elsewhere(ts, sd, receiver, i) {
        let (p, k) = choose|p: int, k: int|
            0 <= p < sd.number_of_players && p != receiver && 0 <= k < ts.hand(p).len() && ts.touched(ts.hand(p)[k] as int)
                && #[trigger] known_id(ts.empathy_of(ts.hand(p)[k] as int)) == Some(i as u8) && 0 <= i < 64;
        let c = ts.hand(p)[k];
        assert(!ts.hand(receiver).contains(c));
        assert(ts2.hand(p)[k] == c);
        assert(ts2.empathy_of(c as int) == ts.empathy_of(c as int));
        if ts.touched(c as int) != ts2.touched(c as int) {
            assert(ts.hand(receiver).contains((c as int) as u8));
        }
        assert(ts2.touched(c as int));
        assert(clued_elsewhere(ts2, sd, receiver, i));
    }
    if clued_elsewhere(ts2, sd, receiver, i) {
        let (p, k) = choose|p: int, k: int|
            0 <= p < sd.number_of_players && p != receiver && 0 <= k < ts2.hand(p).len() && ts2.touched(ts2.hand(p)[k] as int)
                && #[trigger] known_id(ts2.empathy_of(ts2.hand(p)[k] as int)) == Some(i as u8) && 0 <= i < 64;
        assert(ts2.hand(p) == ts.hand(p));
        let c = ts.hand(p)[k];
        assert(!ts.hand(receiver).contains(c));
        assert(ts2.empathy_of(c as int) == ts.empathy_of(c as int));
        if ts.touched(c as int) != ts2.touched(c as int) {
            assert(ts.hand(receiver).contains((c as int) as u8));
        }
        assert(ts.touched(c as int));
        assert(clued_elsewhere(ts, sd, receiver, i));
    }
}

/// Good-touch baseline narrowing of the cards a clue touches; `None` when no identity
/// would remain.
pub fn good_touch_baseline_mask(clue: &Clue, receiver: PlayerIndex, table_state: &TableState, static_data: &StaticGameData) -> (r: Option<VariantCardsBitField>)
    requires
        table_state.wf(static_data),
    ensures
        r matches Some(m) ==> m != 0 && forall|i: int| #[trigger] in_mask(m, i) <==> good_touch_allows(clue, receiver as int, table_state, static_data, i),
        r is None <==> forall|i: int| !good_touch_allows(clue, receiver as int, table_state, static_data, i),
{
    let clue_mask = static_data.variant.empathy_for_clue(clue);
    let still_needed_bits = still_needed_cards_mask(table_state, static_data);
    let already_clued = already_clued_ids_mask(receiver, table_state, static_data);
    let mask = clue_mask & still_needed_bits & !already_clued;
    proof {
        crate::bits::lemma_zero_iff(mask);
        assert forall|i: int| #[trigger] in_mask(mask, i) <==> good_touch_allows(clue, receiver as int, table_state, static_data, i) by {
            if good_touch_allows(clue, receiver as int, table_state, static_data, i) {
                assert(0 <= i < 64);
            }
        }
    }
    if mask == 0 {
        proof {
            assert forall|i: int| !good_touch_allows(clue, receiver as int, table_state, static_data, i) by {
                if good_touch_allows(clue, receiver as int, table_state, static_data, i) {
                    assert(in_mask(mask, i));
                }
            }
        }
        None
    } else {
        Some(mask)
    }
}

// ── Bad touches ──────────────────────────────────────────────────────────────

/// Identity bit of a clue-touched card for the bad-touch scan: from `truth` when it knows
/// the card, else from a singleton public empathy, else none.
pub open spec fn clued_id_bits(truth: LightweightPlayerPOV, ts: &TableState, idx: int) -> u64 {
    match truth.card_id(idx) {
        Some(id) => single(id as int),
        None => match known_id(ts.empathy_of(idx)) {
            Some(id) => single(id as int),
            None => 0,
        },
    }
}

/// Union of [`clued_id_bits`] over the clue-touched cards of `s` outside `skip`.
pub open spec fn clued_bits_of(truth: LightweightPlayerPOV, ts: &TableState, s: Seq<u8>, skip: u64) -> u64
    decreases s.len(),
{
    if s.len() == 0 {
        0
    } else {
        let idx = s.last() as int;
        clued_bits_of(truth, ts, s.drop_last(), skip) | (if ts.touched(idx) && !in_mask(skip, idx) {
            clued_id_bits(truth, ts, idx)
        } else {
            0
        })
    }
}

/// Union of [`clued_bits_of`] over the hands of players `0..n` other than `receiver`.
pub open spec fn clued_in_other_hands(truth: LightweightPlayerPOV, ts: &TableState, receiver: int, n: int) -> u64
    decreases n,
{
    if n <= 0 {
        0
    } else {
        clued_in_other_hands(truth, ts, receiver, n - 1) | (if n - 1 != receiver {
            clued_bits_of(truth, ts, ts.hand(n - 1), 0)
        } else {
            0
        })
    }
}

/// Identities a touched card may be for the bad-touch scan: `truth`'s singleton, else the
/// public empathy.
pub open spec fn touch_bits(truth: LightweightPlayerPOV, ts: &TableState, idx: int) -> u64 {
    match truth.card_id(idx) {
        Some(id) => single(id as int),
        None => ts.empathy_of(idx),
    }
}

/// Bad touches among `touched` and the singleton identities seen so far: a card is bad
/// when none of its identities is needed, one is already clued, or its singleton identity
/// repeats an earlier touched card.
pub open spec fn bad_touch_scan(truth: LightweightPlayerPOV, ts: &TableState, touched: Seq<u8>, needed: u64, clued: u64) -> (int, u64)
    decreases touched.len(),
{
    if touched.len() == 0 {
        (0, 0)
    } else {
        let prev = bad_touch_scan(truth, ts, touched.drop_last(), needed, clued);
        let bits = touch_bits(truth, ts, touched.last() as int);
        let one = is_singleton(bits);
        let dup = one && bits & prev.1 != 0;
        let bad = bits & needed == 0 || bits & clued != 0 || dup;
        (prev.0 + if bad { 1int } else { 0int }, if one { prev.1 | bits } else { prev.1 })
    }
}

/// Number of bad touches of a clue to `receiver` touching `touched`.
pub open spec fn bad_touches(truth: LightweightPlayerPOV, ts: &TableState, sd: &StaticGameData, touched: Seq<u8>, receiver: int) -> int {
    let clued = clued_in_other_hands(truth, ts, receiver, sd.number_of_players as int) | clued_bits_of(
        truth,
        ts,
        ts.hand(receiver),
        positions_mask(touched),
    );
    bad_touch_scan(truth, ts, touched, still_needed_mask(ts, sd), clued).0
}

/// Exec form of [`clued_id_bits`].
fn clued_id_bits_of(truth: &LightweightPlayerPOV, table_state: &TableState, static_data: &StaticGameData, idx: CardDeckIndex) -> (r: u64)
    requires
        truth.wf(),
        table_state.wf(static_data),
        idx < MAX_CARDS_IN_DECK,
    ensures
        r == clued_id_bits(*truth, table_state, idx as int),
{
    match truth.card_identity(idx) {
        Some(id) => bit(id),
        None => match table_state.get_global_empathy(static_data, idx).known_card_id() {
            Some(id) => {
                proof {
                    lemma_known_id_bits(table_state.empathy_of(idx as int));
                }
                bit(id)
            },
            None => 0,
        },
    }
}

/// Exec form of [`clued_bits_of`].
fn clued_bits_in(truth: &LightweightPlayerPOV, table_state: &TableState, static_data: &StaticGameData, s: &[CardDeckIndex], skip: u64) -> (r: u64)
    requires
        truth.wf(),
        table_state.wf(static_data),
        forall|k: int| 0 <= k < s@.len() ==> #[trigger] s@[k] < MAX_CARDS_IN_DECK,
    ensures
        r == clued_bits_of(*truth, table_state, s@, skip),
{
    let mut acc: u64 = 0;
    let mut k: usize = 0;
    while k < s.len()
        invariant
            truth.wf(),
            table_state.wf(static_data),
            forall|j: int| 0 <= j < s@.len() ==> #[trigger] s@[j] < MAX_CARDS_IN_DECK,
            k <= s@.len(),
            acc == clued_bits_of(*truth, table_state, s@.subrange(0, k as int), skip),
        decreases s.len() - k,
    {
        let idx = s[k];
        proof {
            let t = s@.subrange(0, k + 1);
            assert(t.drop_last() == s@.subrange(0, k as int));
            assert(t.last() == idx);
        }
        if table_state.is_touched(idx) && !test_bit(skip, idx) {
            acc = acc | clued_id_bits_of(truth, table_state, static_data, idx);
        } else {
            acc = acc | 0;
        }
        k += 1;
    }
    assert(s@.subrange(0, s@.len() as int) == s@);
    acc
}

/// Exec form of [`touch_bits`].
fn touch_bits_of(truth: &LightweightPlayerPOV, table_state: &TableState, static_data: &StaticGameData, idx: CardDeckIndex) -> (r: u64)
    requires
        truth.wf(),
        table_state.wf(static_data),
        idx < MAX_CARDS_IN_DECK,
    ensures
        r == touch_bits(*truth, table_state, idx as int),
{
    match truth.card_identity(idx) {
        Some(id) => bit(id),
        None => table_state.get_global_empathy(static_data, idx).as_bits(),
    }
}

/// Number of cards in `touched` that break the good-touch principle: no identity of the
/// card (as `truth` sees it, else publicly) is still needed, its identity is already clued
/// in another hand or elsewhere in the receiver's hand, or it repeats the singleton
/// identity of an earlier touched card.
pub fn count_bad_touches(
    touched: &[CardDeckIndex],
    receiver: PlayerIndex,
    truth: &LightweightPlayerPOV,
    table_state: &TableState,
    static_data: &StaticGameData,
) -> (r: usize)
    requires
        truth.wf(),
        table_state.wf(static_data),
        receiver < static_data.number_of_players,
        forall|k: int| 0 <= k < touched@.len() ==> #[trigger] touched@[k] < MAX_CARDS_IN_DECK,
    ensures
        r == bad_touches(*truth, table_state, static_data, touched@, receiver as int),
{
    let still_needed = still_needed_cards_mask(table_state, static_data);
    let num_players = static_data.num_players();
    let mut other: u64 = 0;
    let mut p: usize = 0;
    while p < num_players
        invariant
            truth.wf(),
            table_state.wf(static_data),
            num_players == static_data.number_of_players,
            p <= num_players,
            other == clued_in_other_hands(*truth, table_state, receiver as int, p as int),
        decreases num_players - p,
    {
        if p != receiver {
            other = other | clued_bits_in(truth, table_state, static_data, table_state.hands[p].as_slice(), 0);
        } else {
            other = other | 0;
        }
        p += 1;
    }
    let mut touched_mask: u64 = 0;
    let mut k: usize = 0;
    while k < touched.len()
        invariant
            forall|j: int| 0 <= j < touched@.len() ==> #[trigger] touched@[j] < MAX_CARDS_IN_DECK,
            k <= touched@.len(),
            touched_mask == positions_mask(touched@.subrange(0, k as int)),
        decreases touched.len() - k,
    {
        proof {
            let t = touched@.subrange(0, k + 1);
            assert(t.drop_last() == touched@.subrange(0, k as int));
        }
        touched_mask = touched_mask | bit(touched[k]);
        k += 1;
    }
    assert(touched@.subrange(0, touched@.len() as int) == touched@);
    let receiver_clued = clued_bits_in(truth, table_state, static_data, table_state.hands[receiver].as_slice(), touched_mask);
    let already_clued = other | receiver_clued;
    let mut seen: u64 = 0;
    let mut count: usize = 0;
    let mut k: usize = 0;
    while k < touched.len()
        invariant
            truth.wf(),
            table_state.wf(static_data),
            forall|j: int| 0 <= j < touched@.len() ==> #[trigger] touched@[j] < MAX_CARDS_IN_DECK,
            k <= touched@.len(),
            count <= k,
            (count as int, seen) == bad_touch_scan(*truth, table_state, touched@.subrange(0, k as int), still_needed, already_clued),
        decreases touched.len() - k,
    {
        let idx = touched[k];
        proof {
            let t = touched@.subrange(0, k + 1);
            assert(t.drop_last() == touched@.subrange(0, k as int));
            assert(t.last() == idx);
        }
        let bits = touch_bits_of(truth, table_state, static_data, idx);
        let one = singleton_of(bits).is_some();
        proof {
            if is_singleton(bits) {
                let i = choose|i: int| 0 <= i < 64 && bits == single(i);
            }
        }
        let dup = one && (bits & seen) != 0;
        let bad = (bits & still_needed) == 0 || (bits & already_clued) != 0 || dup;
        if bad {
            count += 1;
        }
        if one {
            seen = seen | bits;
        }
        k += 1;
    }
    count
}

/// Union of `truth`'s singleton identities over `s`.
pub open spec fn known_bits_of(truth: LightweightPlayerPOV, s: Seq<u8>) -> u64
    decreases s.len(),
{
    if s.len() == 0 {
        0
    } else {
        known_bits_of(truth, s.drop_last()) | match truth.card_id(s.last() as int) {
            Some(id) => single(id as int),
            None => 0,
        }
    }
}

/// Union, over the cards of `s` that are clue-touched or carry a play signal in `kv`, of
/// their needed identities as `kv` sees them.
pub open spec fn held_bits_of(kv: crate::engine::knowledge::player_knowledge::KnowledgeView, ts: &TableState, sd: &StaticGameData, s: Seq<u8>, needed: u64) -> u64
    decreases s.len(),
{
    if s.len() == 0 {
        0
    } else {
        let idx = s.last() as int;
        held_bits_of(kv, ts, sd, s.drop_last(), needed) | (if ts.touched(idx) || kv.play_signal(idx) {
            kv.combined(idx, ts, &sd.variant) & needed
        } else {
            0
        })
    }
}

/// The clue touches a needed identity that the giver probably already holds.
pub open spec fn potential_bad_touch(truth: LightweightPlayerPOV, ts: &TableState, sd: &StaticGameData, team: TeamKnowledge, touched: Seq<u8>, giver: int) -> bool {
    let needed = still_needed_mask(ts, sd);
    let on_receiver = known_bits_of(truth, touched) & needed;
    on_receiver != 0 && on_receiver & held_bits_of(team.view_of(giver), ts, sd, ts.hand(giver), needed) != 0
}

/// The clue may duplicate, in the receiver's hand, a needed identity the giver holds on a
/// clue-touched or play-signalled card.
pub fn is_potential_bad_touch(
    touched: &[CardDeckIndex],
    giver: PlayerIndex,
    truth: &LightweightPlayerPOV,
    table_state: &TableState,
    static_data: &StaticGameData,
    team_knowledge: &TeamKnowledge,
) -> (r: bool)
    requires
        truth.wf(),
        table_state.wf(static_data),
        team_knowledge.wf(),
        giver < static_data.number_of_players,
        forall|k: int| 0 <= k < touched@.len() ==> #[trigger] touched@[k] < MAX_CARDS_IN_DECK,
    ensures
        r == potential_bad_touch(*truth, table_state, static_data, *team_knowledge, touched@, giver as int),
{
    proof {
        team_knowledge.lemma_wf();
    }
    let still_needed = still_needed_cards_mask(table_state, static_data);
    let mut on_receiver: u64 = 0;
    let mut k: usize = 0;
    while k < touched.len()
        invariant
            truth.wf(),
            forall|j: int| 0 <= j < touched@.len() ==> #[trigger] touched@[j] < MAX_CARDS_IN_DECK,
            k <= touched@.len(),
            on_receiver == known_bits_of(*truth, touched@.subrange(0, k as int)),
        decreases touched.len() - k,
    {
        let idx = touched[k];
        proof {
            let t = touched@.subrange(0, k + 1);
            assert(t.drop_last() == touched@.subrange(0, k as int));
            assert(t.last() == idx);
        }
        match truth.card_identity(idx) {
            Some(id) => {
                on_receiver = on_receiver | bit(id);
            },
            None => {
                on_receiver = on_receiver | 0;
            },
        }
        k += 1;
    }
    assert(touched@.subrange(0, touched@.len() as int) == touched@);
    on_receiver = on_receiver & still_needed;
    if on_receiver == 0 {
        return false;
    }
    let giver_knowledge = team_knowledge.player(giver);
    let hand = table_state.hands[giver].as_slice();
    let mut held: u64 = 0;
    let mut k: usize = 0;
    while k < hand.len()
        invariant
            table_state.wf(static_data),
            giver_knowledge.wf(),
            *giver_knowledge == team_knowledge.knowledge(giver as int),
            hand@ == table_state.hand(giver as int),
            giver < static_data.number_of_players,
            k <= hand@.len(),
            held == held_bits_of(giver_knowledge@, table_state, static_data, hand@.subrange(0, k as int), still_needed),
        decreases hand.len() - k,
    {
        let idx = hand[k];
        proof {
            let t = hand@.subrange(0, k + 1);
            assert(t.drop_last() == hand@.subrange(0, k as int));
            assert(t.last() == idx);
            assert(table_state.hands@[giver as int]@[k as int] < MAX_CARDS_IN_DECK);
        }
        if table_state.is_touched(idx) || giver_knowledge.has_play_signal(idx) {
            let inferred = giver_knowledge.combined_possible_identities(idx, table_state, static_data).as_bits();
            held = held | (inferred & still_needed);
        } else {
            held = held | 0;
        }
        k += 1;
    }
    assert(hand@.subrange(0, hand@.len() as int) == hand@);
    (on_receiver & held) != 0
}

/// The clue touches no bad card (see [`count_bad_touches`]).
pub fn is_good_touch_principle_compliant(
    _clue: &Clue,
    clue_receiver_player_index: &PlayerIndex,
    touched_cards: &[CardDeckIndex],
    player_pov: &LightweightPlayerPOV,
) -> (r: bool)
    requires
        player_pov.wf(),
        *clue_receiver_player_index < player_pov.sd().number_of_players,
        forall|k: int| 0 <= k < touched_cards@.len() ==> #[trigger] touched_cards@[k] < MAX_CARDS_IN_DECK,
    ensures
        r == (bad_touches(*player_pov, &player_pov.ts(), &player_pov.sd(), touched_cards@, *clue_receiver_player_index as int) == 0),
{
    proof {
        player_pov.lemma_wf();
    }
    count_bad_touches(
        touched_cards,
        *clue_receiver_player_index,
        player_pov,
        player_pov.table_state(),
        player_pov.static_data(),
    ) == 0
}

/// The newest card no clue touched in `player_index`'s hand is known, from
/// `observer_pov`, to be `card_id`.
pub fn has_on_finesse_position(card_id: VariantCardId, player_index: usize, observer_pov: &LightweightPlayerPOV) -> (r: bool)
    requires
        observer_pov.wf(),
        player_index < observer_pov.sd().number_of_players,
    ensures
        r == (finesse_position(*observer_pov, player_index as int) matches Some(idx) && observer_pov.card_id(idx as int) == Some(card_id)),
{
    match get_finesse_position(player_index, observer_pov) {
        Some(idx) => match observer_pov.card_identity(idx) {
            Some(id) => id == card_id,
            None => false,
        },
        None => false,
    }
}

} // verus!
