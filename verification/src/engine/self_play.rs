//! Self-play: a freshly shuffled deck, and a whole game played on it by a strategy.
use vstd::prelude::*;
use rand::seq::SliceRandom;
use crate::engine::action_selection_strategy::ActionSelectionStrategy;
use crate::engine::convention::convention_tech::ConventionTech;
use crate::engine::convention::hgroup::h_group_convention_set::HGroupConventionSet;
use crate::engine::final_round::{after_turn, final_round_step};
use crate::engine::knowledge::lightweight_player_pov::LightweightPlayerPOV;
use crate::engine::knowledge_aware_game_state::{apply_args_wf, apply_outcome, dealt_hand, dealt_views, seen_draw, KnowledgeAwareGameState};
use crate::engine::knowledge::player_knowledge::{KnowledgeView, PlayerKnowledge};
use crate::game::action::{GameAction, GameActionView};
use crate::game::card::{known_id, VariantCardId};
use crate::game::static_game_data::StaticGameData;
use crate::game::table_state::sum_prefix;
use crate::game::variant::Variant;
use crate::game::{MAX_CARDS_IN_DECK, MAX_PLAYERS_IN_GAME, MAX_STRIKES};
use crate::game::variant::{MAX_SUITS, STACKS_SIZE};

verus! {

#[verifier::external_type_specification]
#[verifier::external_body]
pub struct ExSmallRng(rand::rngs::SmallRng);

/// The deck of a variant in identity order: each identity below `n` as many times as it
/// has copies.
pub open spec fn ordered_deck(v: Variant, n: int) -> Seq<VariantCardId>
    decreases n,
{
    if n <= 0 {
        Seq::empty()
    } else {
        ordered_deck(v, n - 1) + Seq::new(v.copies(n - 1) as nat, |k: int| (n - 1) as VariantCardId)
    }
}

/// `SliceRandom::shuffle` (a Fisher–Yates pass of swaps): the cards end in an order drawn
/// from `rng`, the same cards as before. Which order comes out is left open.
#[verifier::external_body]
fn shuffle_cards(deck: &mut Vec<VariantCardId>, rng: &mut rand::rngs::SmallRng)
    ensures
        final(deck)@.to_multiset() == old(deck)@.to_multiset(),
{
    deck.as_mut_slice().shuffle(rng);
}

/// Every card of the variant, one entry per copy, in an order drawn from `rng`.
pub fn shuffled_deck(variant: &Variant, rng: &mut rand::rngs::SmallRng) -> (r: Vec<VariantCardId>)
    requires
        variant.wf(),
    ensures
        r@.to_multiset() == ordered_deck(*variant, variant.total_ids()).to_multiset(),
{
    let total = variant.total_id_count();
    let mut deck: Vec<VariantCardId> = Vec::new();
    let mut id: u8 = 0;
    while id < total
        invariant
            variant.wf(),
            total == variant.total_ids(),
            total <= 30,
            id <= total,
            deck@ == ordered_deck(*variant, id as int),
            deck@.len() <= id * 4,
        decreases total - id,
    {
        let copies = variant.copies_of(id);
        let ghost base = deck@;
        let mut c: u8 = 0;
        while c < copies
            invariant
                copies == variant.copies(id as int),
                copies <= 4,
                c <= copies,
                base == ordered_deck(*variant, id as int),
                base.len() <= id * 4,
                deck@ == base + Seq::new(c as nat, |k: int| id as VariantCardId),
            decreases copies - c,
        {
            deck.push(id);
            assert(Seq::new(c as nat, |k: int| id as VariantCardId).push(id) =~= Seq::new((c + 1) as nat, |k: int| id as VariantCardId));
            c += 1;
        }
        assert(deck@ =~= ordered_deck(*variant, id as int + 1));
        id += 1;
    }
    shuffle_cards(&mut deck, rng);
    deck
}

/// Cards dealt to each player: five with up to three players, four with more.
pub fn hand_size(players: u8) -> (r: usize)
    ensures
        r == (if players <= 3 { 5usize } else { 4usize }),
{
    if players <= 3 {
        5
    } else {
        4
    }
}

/// `a` can be taken on a board with `clue_tokens` clue tokens: a play or discard of a deck
/// position, or a clue to a seated player touching deck positions with a token to spend.
pub open spec fn fits_rules(a: GameActionView, sd: &StaticGameData, clue_tokens: u8) -> bool {
    &&& apply_args_wf(a, sd)
    &&& !(a is Draw)
    &&& (a is Clue ==> clue_tokens > 0)
}

/// Whether `action` can be taken on a board with `clue_tokens` clue tokens.
pub fn action_fits(action: &GameAction, sd: &StaticGameData, clue_tokens: u8) -> (r: bool)
    ensures
        r == fits_rules(action@, sd, clue_tokens),
{
    match action {
        GameAction::Play { player_index, card_deck_index, .. } => *player_index < sd.num_players() && (*card_deck_index as usize) < MAX_CARDS_IN_DECK,
        GameAction::Discard { player_index, card_deck_index, .. } => *player_index < sd.num_players() && (*card_deck_index as usize) < MAX_CARDS_IN_DECK,
        GameAction::Clue { player_index, touched_card_deck_indexes, turn, .. } => {
            if clue_tokens == 0 || *player_index >= sd.num_players() || *turn == usize::MAX {
                return false;
            }
            let touched = touched_card_deck_indexes.as_slice();
            let mut k: usize = 0;
            while k < touched.len()
                invariant
                    action@ is Clue,
                    action@->Clue_touched == touched@,
                    action@->Clue_player_index < sd.number_of_players,
                    action@->Clue_turn < usize::MAX,
                    clue_tokens > 0,
                    k <= touched@.len(),
                    forall|q: int| 0 <= q < k ==> #[trigger] touched@[q] < MAX_CARDS_IN_DECK,
                decreases touched.len() - k,
            {
                if touched[k] as usize >= MAX_CARDS_IN_DECK {
                    assert(touched@[k as int] >= MAX_CARDS_IN_DECK);
                    assert(!crate::engine::convention::hgroup::tech::clue_args_wf(*player_index, touched@, sd));
                    return false;
                }
                k += 1;
            }
            true
        },
        GameAction::Draw { .. } => false,
    }
}

/// The game is over: three strikes, every card played, or no card left to draw.
pub open spec fn game_over(s: KnowledgeAwareGameState) -> bool {
    ||| s.ts().strike_tokens >= MAX_STRIKES
    ||| s.ts().score_spec() + s.phantoms() >= s.sd().variant.total_ids()
    ||| s.ts().deck_size == 0
}

/// A bound on the turns left: while the deck lasts, each play or discard draws a card
/// and regains at most one clue token, and each clue spends one; then the final round.
pub open spec fn turns_bound(final_round: Option<usize>, deck_size: u8, clue_tokens: u8, n: int) -> int {
    match final_round {
        None => n + 9 * deck_size + clue_tokens,
        Some(k) => k as int,
    }
}

/// A game can be played on `deck` with `sd`: a supported player count and variant, the
/// variant's full deck of at most 60 cards, each card one of its identities, with more
/// cards than the opening hands take.
pub open spec fn game_fits(deck: Seq<VariantCardId>, sd: &StaticGameData) -> bool {
    &&& sd.wf()
    &&& deck.len() == sum_prefix(sd.variant.card_copies_count_by_id@, sd.variant.total_ids())
    &&& deck.len() <= MAX_CARDS_IN_DECK
    &&& sd.number_of_players * (if sd.number_of_players <= 3 { 5int } else { 4int }) < deck.len()
    &&& forall|k: int| 0 <= k < deck.len() ==> #[trigger] deck[k] < sd.variant.total_ids()
}

/// Whether a game can be played on `deck` with `sd` (see [`game_fits`]).
pub fn fits_game(deck: &Vec<VariantCardId>, sd: &StaticGameData) -> (r: bool)
    ensures
        r == game_fits(deck@, sd),
{
    let v = &sd.variant;
    if sd.number_of_players < 2 || sd.number_of_players as usize > MAX_PLAYERS_IN_GAME {
        return false;
    }
    if v.number_of_suits < 1 || v.number_of_suits > MAX_SUITS || v.stacks_size != STACKS_SIZE {
        return false;
    }
    let total: usize = v.number_of_suits as usize * 5;
    if v.card_copies_count_by_id.len() != total {
        return false;
    }
    let mut cards: usize = 0;
    let mut i: usize = 0;
    while i < total
        invariant
            *v == sd.variant,
            total == v.total_ids(),
            total <= 30,
            v.card_copies_count_by_id@.len() == total,
            i <= total,
            cards == sum_prefix(v.card_copies_count_by_id@, i as int),
            cards <= 4 * i,
            forall|q: int| 0 <= q < i ==> #[trigger] v.card_copies_count_by_id@[q] <= 4,
        decreases total - i,
    {
        let c = v.card_copies_count_by_id[i];
        if c > 4 {
            assert(v.card_copies_count_by_id@[i as int] > 4);
            return false;
        }
        cards = cards + c as usize;
        i += 1;
    }
    let n = sd.number_of_players as usize;
    let opening = if n <= 3 { n * 5 } else { n * 4 };
    if deck.len() != cards || deck.len() > MAX_CARDS_IN_DECK || opening >= deck.len() {
        return false;
    }
    let mut k: usize = 0;
    while k < deck.len()
        invariant
            k <= deck@.len(),
            total == sd.variant.total_ids(),
            forall|q: int| 0 <= q < k ==> #[trigger] deck@[q] < sd.variant.total_ids(),
        decreases deck.len() - k,
    {
        if deck[k] as usize >= total {
            assert(deck@[k as int] >= sd.variant.total_ids());
            return false;
        }
        k += 1;
    }
    true
}

/// `strategy` may return `a` to the player whose view is `pov`.
pub open spec fn chose<S: ActionSelectionStrategy>(strategy: &S, pov: LightweightPlayerPOV, cs: &HGroupConventionSet, a: GameAction) -> bool {
    call_ensures(S::select_active_player_action, (strategy, &pov, cs), a)
}

/// The game cannot go on: three strikes, or every card played.
pub open spec fn terminal(s: KnowledgeAwareGameState) -> bool {
    s.ts().strike_tokens >= MAX_STRIKES || s.ts().score_spec() + s.phantoms() >= s.sd().variant.total_ids()
}

/// Cards dealt to each of `n` players.
pub open spec fn hand_size_spec(n: u8) -> int {
    if n <= 3 { 5 } else { 4 }
}

/// Every seat's knowledge at the start of a game of `n` players: nothing known.
pub open spec fn fresh_views(n: int) -> Seq<KnowledgeView> {
    Seq::new(MAX_PLAYERS_IN_GAME as nat, |p: int| PlayerKnowledge::new_spec(if p < n { p as usize } else { 0 }))
}

/// The state right after the deal of `deck`: each player holds its opening hand, taken in
/// seat order from the first deck positions, and has recorded it while every other player
/// saw it; the bank is full, nothing is played, discarded or clued, and player 0 is on
/// turn.
pub open spec fn opening(s: KnowledgeAwareGameState, deck: Seq<VariantCardId>, sd: &StaticGameData) -> bool {
    let n = sd.number_of_players as int;
    let h = hand_size_spec(sd.number_of_players);
    let dealt = n * h;
    &&& s.wf()
    &&& s.sd().same_as(*sd)
    &&& forall|p: int| 0 <= p < n ==> #[trigger] s.ts().hand(p) == dealt_hand(0, h, p)
    &&& s.views() == dealt_views(fresh_views(n), deck, 0, h, n, dealt)
    &&& s.ts().deck_size == deck.len() - dealt
    &&& s.next_draw() == dealt
    &&& s.ts().clue_tokens == crate::game::MAX_CLUE_TOKEN_COUNT
    &&& s.ts().strike_tokens == 0
    &&& s.ts().clue_touched_cards == 0
    &&& forall|suit: int| 0 <= suit < sd.variant.number_of_suits ==> #[trigger] s.ts().stack(suit) == 0
    &&& forall|id: int| 0 <= id < sd.variant.total_ids() ==> #[trigger] s.ts().discarded(id) == 0
    &&& forall|k: int| 0 <= k < MAX_CARDS_IN_DECK ==> #[trigger] s.ts().empathy_of(k) == sd.variant.all_ids_mask()
    &&& s.ts().current_turn == 0
    &&& s.ts().active_player_index == 0
    &&& s.ts().score_spec() == 0
    &&& s.phantoms() == 0
    &&& s.hist().len() == 0
    &&& s.next_id() == 0
}

/// The identity of deck position `idx` as player `observer` sees it in `s`.
pub open spec fn observed_id(s: KnowledgeAwareGameState, observer: int, idx: int) -> Option<VariantCardId> {
    known_id(s.team().view_of(observer).combined(idx, &s.ts(), &s.sd().variant))
}

/// The identities of deck positions as player `observer` sees them in `s`.
pub open spec fn seen_by(s: KnowledgeAwareGameState, observer: int) -> spec_fn(int) -> Option<VariantCardId> {
    |i: int| observed_id(s, observer, i)
}

/// `s2` is `s` once every player but `p` has seen the card `p` drew at deck position
/// `idx`, of identity `id`.
pub open spec fn revealed_to_others(s: KnowledgeAwareGameState, p: int, idx: int, id: int, s2: KnowledgeAwareGameState) -> bool {
    &&& s2.wf()
    &&& s2.ts() == s.ts()
    &&& s2.views() == seen_draw(s.views(), p, idx, id, s.n())
    &&& s2.sd() == s.sd()
    &&& s2.next_draw() == s.next_draw()
    &&& s2.hist() == s.hist()
    &&& s2.next_id() == s.next_id()
    &&& s2.phantoms() == s.phantoms()
}

/// `s2` is `s` with the turn passed to the next player.
pub open spec fn turn_passed(s: KnowledgeAwareGameState, s2: KnowledgeAwareGameState) -> bool {
    &&& s2.wf()
    &&& s2.ts()@ == s.ts()@.advanced(s.n())
    &&& s2.team() == s.team()
    &&& s2.sd() == s.sd()
    &&& s2.next_draw() == s.next_draw()
    &&& s2.hist() == s.hist()
    &&& s2.next_id() == s.next_id()
    &&& s2.phantoms() == s.phantoms()
}

/// One turn of self-play from `s` with action `a`: it is applied (see [`apply_outcome`])
/// with the identities the next player sees, the card drawn in place of a played or
/// discarded one is shown to every other player with its identity in `deck`, and the turn
/// passes, leaving `s2`.
pub open spec fn turn_played(s: KnowledgeAwareGameState, a: GameActionView, techs: Seq<ConventionTech>, deck: Seq<VariantCardId>, s2: KnowledgeAwareGameState) -> bool {
    let actor = s.ts().active_player_index as int;
    let observer = (actor + 1) % s.n();
    exists|m: KnowledgeAwareGameState, m2: KnowledgeAwareGameState|
        #![trigger apply_outcome(s, m, a, techs, seen_by(s, observer)), turn_passed(m2, s2)]
        {
            &&& apply_outcome(s, m, a, techs, seen_by(s, observer))
            &&& if m.next_draw() > s.next_draw() {
                revealed_to_others(m, actor, s.next_draw() as int, deck[s.next_draw() as int] as int, m2)
            } else {
                m2 == m
            }
            &&& turn_passed(m2, s2)
        }
}

/// Turn `t` of a self-play trace: the game was not over, `strategy` chose `actions[t]` for
/// the player on turn, the action fits the rules, it was played, and the final-round
/// counter moved on.
pub open spec fn trace_step<S: ActionSelectionStrategy>(
    strategy: &S,
    cs: &HGroupConventionSet,
    deck: Seq<VariantCardId>,
    states: Seq<KnowledgeAwareGameState>,
    actions: Seq<GameAction>,
    rounds: Seq<Option<usize>>,
    t: int,
) -> bool {
    let s = states[t];
    &&& !terminal(s)
    &&& chose(strategy, s.pov_spec(s.ts().active_player_index), cs, actions[t])
    &&& fits_rules(actions[t]@, &s.sd(), s.ts().clue_tokens)
    &&& turn_played(s, actions[t]@, cs.tech_list(), deck, states[t + 1])
    &&& rounds[t + 1] == final_round_step(rounds[t], states[t + 1].ts().deck_size, s.sd().number_of_players as usize).0
}

/// A whole self-play game of `deck`: `states[0]` is the deal, each turn `t` goes from
/// `states[t]` to `states[t + 1]` through `actions[t]` (see [`trace_step`]), the final-round
/// counter `rounds` lets every turn but the last go on. When the game ran to its end, its
/// last state is over, or the deck emptied and exactly one turn fewer than the players
/// followed the turn that emptied it; otherwise `strategy` chose an action outside the
/// rules in the last state.
pub open spec fn game_trace<S: ActionSelectionStrategy>(
    strategy: &S,
    cs: &HGroupConventionSet,
    deck: Seq<VariantCardId>,
    sd: &StaticGameData,
    states: Seq<KnowledgeAwareGameState>,
    actions: Seq<GameAction>,
    rounds: Seq<Option<usize>>,
    completed: bool,
) -> bool {
    let k = states.len() - 1;
    let n = sd.number_of_players as usize;
    &&& states.len() >= 1
    &&& opening(states[0], deck, sd)
    &&& rounds.len() == states.len()
    &&& rounds[0] is None
    &&& actions.len() == if completed { k } else { k + 1 }
    &&& forall|t: int| 0 <= t < k ==> #[trigger] trace_step(strategy, cs, deck, states, actions, rounds, t)
    &&& forall|t: int| 0 <= t < k - 1 ==> #[trigger] final_round_step(rounds[t], states[t + 1].ts().deck_size, n).1
    &&& !completed ==> {
        &&& !terminal(states[k])
        &&& chose(strategy, states[k].pov_spec(states[k].ts().active_player_index), cs, actions[k])
        &&& !fits_rules(actions[k]@, &states[k].sd(), states[k].ts().clue_tokens)
    }
    &&& completed ==> terminal(states[k]) || {
        &&& k >= 1
        &&& !final_round_step(rounds[k - 1], states[k].ts().deck_size, n).1
        &&& exists|e: int| {
            &&& 1 <= e <= k
            &&& #[trigger] states[e].ts().deck_size == 0
            &&& forall|t: int| 0 <= t < e ==> #[trigger] states[t].ts().deck_size > 0
            &&& k == e + n - 1
        }
    }
}

/// One game of `deck`, each turn's action chosen by `strategy` from the view of the player
/// on turn: the opening hands are dealt, then each action is applied with the next player's
/// view as the one that sees the acting player's cards, the card drawn in its place is
/// shown to every other player, and the turn passes, until the game is over (see
/// [`terminal`]) or the final round is done: once the deck is empty, one more turn for
/// every player but the one who emptied it. Returns the final state and whether the game
/// ran to its end; it stops early, returning `false`, when `strategy` picks an action the
/// rules do not allow (see [`fits_rules`]). The whole game is [`game_trace`].
pub fn play_game<S: ActionSelectionStrategy>(deck: &Vec<VariantCardId>, sd: &StaticGameData, conventions: &HGroupConventionSet, strategy: &S) -> (r: (KnowledgeAwareGameState, bool))
    requires
        game_fits(deck@, sd),
    ensures
        r.0.wf(),
        r.0.sd().same_as(*sd),
        r.0.ts().score_spec() + r.0.phantoms() <= sd.variant.total_ids(),
        r.1 ==> game_over(r.0),
        exists|states: Seq<KnowledgeAwareGameState>, actions: Seq<GameAction>, rounds: Seq<Option<usize>>|
            #[trigger] game_trace(strategy, conventions, deck@, sd, states, actions, rounds, r.1) && states.last() == r.0,
{
    let n = sd.num_players();
    let mut state = KnowledgeAwareGameState::new(sd.duplicate());
    let h = hand_size(sd.number_of_players);
    proof {
        state.lemma_wf();
    }
    proof {
        let stacks = state.ts().playing_stacks@;
        assert forall|i: int| 0 <= i < stacks.len() implies stacks[i] <= 0 by {
            assert(state.ts().stack(i) == 0);
        }
        crate::game::table_state::lemma_sum_prefix_bound(state.ts().playing_stacks@, state.ts().playing_stacks@.len() as int, 0);
    }
    proof {
        state.team().lemma_wf();
        assert forall|q: int| 0 <= q < MAX_PLAYERS_IN_GAME implies #[trigger] state.views()[q] == fresh_views(n as int)[q] by {
            assert(state.team().knowledge(q).wf());
            let kv = state.team().view_of(q);
            assert(kv.inferred =~= fresh_views(n as int)[q].inferred);
            assert forall|k: int| 0 <= k < MAX_CARDS_IN_DECK implies #[trigger] kv.signals[k] == fresh_views(n as int)[q].signals[k] by {
                assert(kv.signals[k].len() == 0);
                assert(kv.signals[k] =~= Seq::<crate::engine::convention::hgroup::signal::Signal>::empty());
            }
            assert(kv.signals =~= fresh_views(n as int)[q].signals);
            assert(kv.hypotheses =~= fresh_views(n as int)[q].hypotheses);
        }
        assert(state.views() =~= fresh_views(n as int));
    }
    let ghost t0 = state.ts();
    state.deal(deck, h);
    proof {
        state.lemma_wf();
        assert forall|q: int| 0 <= q < n implies #[trigger] state.ts().hand(q) == dealt_hand(0, h as int, q) by {
            assert(t0.hand(q).len() == 0);
            assert(state.ts().hand(q) =~= dealt_hand(0, h as int, q));
        }
        assert forall|suit: int| 0 <= suit < sd.variant.number_of_suits implies #[trigger] state.ts().stack(suit) == 0 by {
            assert(state.ts()@.playing_stacks == t0@.playing_stacks);
            assert(t0.stack(suit) == 0);
        }
        assert forall|id: int| 0 <= id < sd.variant.total_ids() implies #[trigger] state.ts().discarded(id) == 0 by {
            assert(state.ts()@.discard_pile == t0@.discard_pile);
            assert(t0.discarded(id) == 0);
        }
        assert forall|k: int| 0 <= k < MAX_CARDS_IN_DECK implies #[trigger] state.ts().empathy_of(k) == sd.variant.all_ids_mask() by {
            assert(state.ts()@.deck_empathy == t0@.deck_empathy);
            assert(t0.empathy_of(k) == state.sd().variant.all_ids_mask());
        }
    }
    assert(opening(state, deck@, sd));
    let mut final_round: Option<usize> = None;
    let mut completed = true;
    let ghost mut states: Seq<KnowledgeAwareGameState> = seq![state];
    let ghost mut actions: Seq<GameAction> = Seq::empty();
    let ghost mut rounds: Seq<Option<usize>> = seq![None];
    let ghost mut e: int = 0;
    loop
        invariant_except_break
            final_round is None ==> state.ts().deck_size > 0,
            final_round is Some ==> state.ts().deck_size == 0,
            final_round matches Some(k) ==> k < n,
            state.ts().current_turn + turns_bound(final_round, state.ts().deck_size, state.ts().clue_tokens, n as int) <= 1000,
            completed,
            actions.len() == states.len() - 1,
            forall|t: int| 0 <= t < states.len() - 1 ==> #[trigger] final_round_step(rounds[t], states[t + 1].ts().deck_size, n).1,
            final_round is None ==> forall|t: int| 0 <= t < states.len() ==> #[trigger] states[t].ts().deck_size > 0,
            final_round matches Some(c) ==> {
                &&& 1 <= e < states.len()
                &&& states[e].ts().deck_size == 0
                &&& forall|t: int| 0 <= t < e ==> #[trigger] states[t].ts().deck_size > 0
                &&& (states.len() - 1 - e) + c == n - 2
            },
        invariant
            state.wf(),
            state.sd().same_as(*sd),
            n == state.n(),
            n == sd.number_of_players,
            2 <= n,
            deck@.len() <= MAX_CARDS_IN_DECK,
            forall|k: int| 0 <= k < deck@.len() ==> #[trigger] deck@[k] < sd.variant.total_ids(),
            state.next_draw() + state.ts().deck_size == deck@.len(),
            state.ts().score_spec() + state.phantoms() <= sd.variant.total_ids(),
            states.len() >= 1,
            states.last() == state,
            opening(states[0], deck@, sd),
            rounds.len() == states.len(),
            rounds[0] is None,
            rounds.last() == final_round,
            forall|t: int| 0 <= t < states.len() - 1 ==> #[trigger] trace_step(strategy, conventions, deck@, states, actions, rounds, t),
        ensures
            state.wf(),
            state.sd().same_as(*sd),
            state.ts().score_spec() + state.phantoms() <= sd.variant.total_ids(),
            completed ==> game_over(state),
            game_trace(strategy, conventions, deck@, sd, states, actions, rounds, completed),
            states.last() == state,
        decreases turns_bound(final_round, state.ts().deck_size, state.ts().clue_tokens, n as int),
    {
        proof {
            state.lemma_wf();
        }
        if state.is_terminal() {
            assert(terminal(states[states.len() - 1]));
            break;
        }
        let current = state.table_state().active_player_index;
        let action = {
            let pov = state.player_pov(current);
            strategy.select_active_player_action(&pov, conventions)
        };
        if !action_fits(&action, state.static_data(), state.table_state().clue_tokens) {
            completed = false;
            proof {
                let na = actions.push(action);
                assert forall|t: int| 0 <= t < states.len() - 1 implies #[trigger] trace_step(strategy, conventions, deck@, states, na, rounds, t) by {
                    assert(trace_step(strategy, conventions, deck@, states, actions, rounds, t));
                    assert(na[t] == actions[t]);
                }
                assert(na[states.len() - 1] == action);
                actions = na;
            }
            break;
        }
        let observer = (current + 1) % n;
        let knowledge = state.team_knowledge().player(observer).duplicate();
        let team = state.team_knowledge().duplicate();
        let table = state.table_state().duplicate();
        proof {
            state.team().lemma_wf();
            assert(state.ts().wf(sd));
        }
        let truth = LightweightPlayerPOV::new(observer, &knowledge, &team, &table, sd);
        let drawn_at = state.next_deck_position();
        let ghost o = state;
        state.apply(&action, conventions, &truth);
        let ghost m = state;
        proof {
            state.lemma_wf();
            let f1 = |i: int| truth.card_id(i);
            let f2 = seen_by(o, observer as int);
            assert(truth.kv() == o.team().view_of(observer as int));
            assert(table.deck_empathy@ == o.ts().deck_empathy@) by {
                assert(table@.deck_empathy == o.ts()@.deck_empathy);
            }
            assert forall|i: int| #[trigger] f1(i) == f2(i) by {
                assert(truth.ts().empathy_of(i) == o.ts().empathy_of(i));
                let kv = truth.kv();
                let v1 = truth.v();
                let v2 = o.sd().variant;
                assert(v1.all_ids_mask() == v2.all_ids_mask());
                assert(kv.effective_mask(i, &v1) == kv.effective_mask(i, &v2)) by {
                    assert((|j: int| kv.effective_allows(i, j, &v1)) =~= (|j: int| kv.effective_allows(i, j, &v2)));
                }
                assert(truth.kv().combined(i, &truth.ts(), &truth.v()) == o.team().view_of(observer as int).combined(i, &o.ts(), &o.sd().variant));
            }
            assert(f1 =~= f2);
        }
        if state.next_deck_position() > drawn_at {
            state.reveal_drawn(current, drawn_at, deck[drawn_at as usize]);
        }
        let ghost m2 = state;
        state.advance_turn();
        let (next, go_on) = after_turn(final_round, state.table_state().deck_size, n);
        proof {
            assert(turn_passed(m2, state));
            assert(apply_outcome(o, m, action@, conventions.tech_list(), seen_by(o, observer as int)));
            assert(turn_played(o, action@, conventions.tech_list(), deck@, state));
            let k = states.len() - 1;
            let ns = states.push(state);
            let na = actions.push(action);
            let nr = rounds.push(next);
            assert forall|t: int| 0 <= t < ns.len() - 1 implies #[trigger] trace_step(strategy, conventions, deck@, ns, na, nr, t) by {
                assert(ns[t] == states[t] || t == k);
                if t < k {
                    assert(trace_step(strategy, conventions, deck@, states, actions, rounds, t));
                    assert(ns[t + 1] == states[t + 1]);
                    assert(na[t] == actions[t]);
                    assert(nr[t] == rounds[t] && nr[t + 1] == rounds[t + 1]);
                } else {
                    assert(ns[t] == o);
                    assert(na[t] == action);
                    assert(nr[t] == final_round);
                }
            }
            if final_round is None && next is Some {
                e = k + 1;
            }
            states = ns;
            actions = na;
            rounds = nr;
        }
        final_round = next;
        if !go_on {
            proof {
                let k = states.len() - 1;
                assert(states[e].ts().deck_size == 0);
                assert(k == e + n - 1);
            }
            break;
        }
    }
    assert(game_trace(strategy, conventions, deck@, sd, states, actions, rounds, completed));
    assert(states.last() == state);
    let r = (state, completed);
    assert(game_trace(strategy, conventions, deck@, sd, states, actions, rounds, r.1) && states.last() == r.0);
    r
}

} // verus!