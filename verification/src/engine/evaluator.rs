//! The counting side of leaf evaluation: which identities are critical, which cards
//! their holders know to be playable, how much identity information the team holds and
//! which risks a discard or a skipped save runs.
//!
//! Every quantity here is an exact integer; the weighted sum that turns them into a
//! heuristic score is left to the caller.
use vstd::prelude::*;
use crate::bits::{group_bits, in_mask, single, bit, test_bit, mask_of, lemma_mask_of_eq};
use crate::engine::knowledge::player_knowledge::{has_play_in, KnowledgeView};
use crate::engine::knowledge::team_knowledge::TeamKnowledge;
use crate::engine::knowledge_aware_game_state::KnowledgeAwareGameState;
use crate::engine::knowledge::lightweight_player_pov::{trash_for, LightweightPlayerPOV};
use crate::game::action::GameAction;
use crate::game::card::CardDeckIndex;
use crate::game::static_game_data::StaticGameData;
use crate::game::table_state::{reachable_run, TableState};
use crate::game::variant::Variant;
use crate::game::{PlayerIndex, MAX_CARDS_IN_DECK, MAX_PLAYERS_IN_GAME};

verus! {

broadcast use group_bits;

/// Number of positions below `n` satisfying `p`.
pub open spec fn count_below(n: int, p: spec_fn(int) -> bool) -> nat
    decreases n,
{
    if n <= 0 {
        0
    } else {
        count_below(n - 1, p) + if p(n - 1) { 1nat } else { 0nat }
    }
}

/// Sum of `f(p)` over `p` below `n`.
pub open spec fn sum_below(n: int, f: spec_fn(int) -> nat) -> nat
    decreases n,
{
    if n <= 0 {
        0
    } else {
        sum_below(n - 1, f) + f(n - 1)
    }
}

// ── Critical identities ──────────────────────────────────────────────────────

/// Exactly one copy of `id` is left outside the discard pile and no copy is played yet.
pub open spec fn critical_unplayed(ts: &TableState, v: &Variant, id: int) -> bool {
    &&& ts.discarded(id) + 1 == v.copies(id)
    &&& !ts.is_played(id)
}

/// The critical identities as a mask.
pub open spec fn critical_mask_spec(ts: &TableState, v: &Variant) -> u64 {
    mask_of(v.total_ids(), |i: int| critical_unplayed(ts, v, i))
}

/// Identities of which exactly one copy is left outside the discard pile and that are not
/// on their stack yet.
pub fn critical_mask(table_state: &TableState, static_data: &StaticGameData) -> (r: u64)
    requires
        table_state.wf(static_data),
    ensures
        r == critical_mask_spec(table_state, &static_data.variant),
        forall|i: int| #[trigger] in_mask(r, i) <==> (0 <= i < static_data.variant.total_ids() && critical_unplayed(table_state, &static_data.variant, i)),
{
    let v = &static_data.variant;
    let total = v.total_id_count();
    let mut mask: u64 = 0;
    let mut id: u8 = 0;
    while id < total
        invariant
            table_state.wf(static_data),
            total == v.total_ids(),
            *v == static_data.variant,
            id <= total,
            forall|i: int| #[trigger] in_mask(mask, i) <==> (0 <= i < id && critical_unplayed(table_state, v, i)),
        decreases total - id,
    {
        let copies = v.copies_of(id);
        let discarded = table_state.copies_discarded(static_data, id);
        let remaining = if copies > discarded { copies - discarded } else { 0 };
        if remaining == 1 && !table_state.contains_card_with_id(static_data, id) {
            mask = mask | bit(id);
        }
        id += 1;
    }
    proof {
        lemma_mask_of_eq(mask, v.total_ids(), |i: int| critical_unplayed(table_state, v, i));
    }
    mask
}

// ── Known playables ──────────────────────────────────────────────────────────

/// The holder `me` knows card `idx` is playable: the team's record of its knowledge holds
/// a baseline play signal on it, or its effective identities are non-empty and all within
/// `playable`.
pub open spec fn known_playable_in(team: TeamKnowledge, kv: KnowledgeView, me: int, v: &Variant, idx: int, playable: u64) -> bool {
    let e = kv.effective_mask(idx, v);
    has_play_in(team.view_of(me).signals[idx]) || (e != 0 && e & playable == e)
}

/// From `pov`, its player knows card `idx` is playable: a baseline play signal on the card
/// in the team's record, or effective identities non-empty and within `playable_mask`.
pub fn card_known_playable(pov: &LightweightPlayerPOV, deck_idx: CardDeckIndex, playable_mask: u64) -> (r: bool)
    requires
        pov.wf(),
        deck_idx < MAX_CARDS_IN_DECK,
    ensures
        r == known_playable_in(pov.team(), pov.kv(), pov.me(), &pov.v(), deck_idx as int, playable_mask),
{
    proof {
        pov.lemma_wf();
        pov.team().lemma_wf();
    }
    let pk = pov.team_knowledge().player(pov.player_index());
    if pk.signals[deck_idx as usize].has_play() {
        return true;
    }
    let bits = pov.inferred_identities(deck_idx).as_bits();
    bits != 0 && (bits & playable_mask) == bits
}

/// Own-hand positions, as the team records the holder's knowledge, that the holder knows
/// to be playable.
pub open spec fn known_playable_count(team: TeamKnowledge, kv: KnowledgeView, me: int, v: &Variant, playable: u64) -> nat {
    count_below(MAX_CARDS_IN_DECK as int, known_playable_own(team, kv, me, *v, playable))
}

/// Own-hand position `k` holds a card its holder knows to be playable.
pub open spec fn known_playable_own(team: TeamKnowledge, kv: KnowledgeView, me: int, v: Variant, playable: u64) -> spec_fn(int) -> bool {
    |k: int| in_mask(team.view_of(me).own_hand, k) && known_playable_in(team, kv, me, &v, k, playable)
}

/// Number of cards of the player's own hand that it knows to be playable.
pub fn count_known_playable(pov: &LightweightPlayerPOV, playable_mask: u64) -> (r: u32)
    requires
        pov.wf(),
    ensures
        r == known_playable_count(pov.team(), pov.kv(), pov.me(), &pov.v(), playable_mask),
{
    proof {
        pov.lemma_wf();
        pov.team().lemma_wf();
    }
    let ghost p = known_playable_own(pov.team(), pov.kv(), pov.me(), pov.v(), playable_mask);
    let own_hand = pov.team_knowledge().player(pov.player_index()).own_hand;
    let mut count: u32 = 0;
    let mut k: u8 = 0;
    while k < MAX_CARDS_IN_DECK as u8
        invariant
            pov.wf(),
            own_hand == pov.team().view_of(pov.me()).own_hand,
            k <= MAX_CARDS_IN_DECK,
            p == known_playable_own(pov.team(), pov.kv(), pov.me(), pov.v(), playable_mask),
            count == count_below(k as int, p),
            count <= k,
        decreases MAX_CARDS_IN_DECK - k,
    {
        let in_hand = test_bit(own_hand, k);
        let known = in_hand && card_known_playable(pov, k, playable_mask);
        assert(known == p(k as int));
        assert(count_below(k as int + 1, p) == count_below(k as int, p) + if p(k as int) { 1nat } else { 0nat });
        if known {
            count += 1;
        }
        k += 1;
    }
    count
}

/// Player `actor` holds a card it knows to be playable.
pub fn actor_has_known_playable(actor: PlayerIndex, table_state: &TableState, static_data: &StaticGameData, team_knowledge: &TeamKnowledge) -> (r: bool)
    requires
        table_state.wf(static_data),
        team_knowledge.wf(),
        team_knowledge.spec_num_players() == static_data.number_of_players,
        actor < static_data.number_of_players,
    ensures
        r == (known_playable_count(
            *team_knowledge,
            team_knowledge.view_of(actor as int),
            actor as int,
            &static_data.variant,
            table_state.playable_mask(&static_data.variant),
        ) > 0),
{
    proof {
        team_knowledge.lemma_wf();
    }
    let pk = team_knowledge.player(actor);
    let pov = LightweightPlayerPOV::new(actor, pk, team_knowledge, table_state, static_data);
    let playable_mask = table_state.playable_cards(static_data);
    count_known_playable(&pov, playable_mask) > 0
}

/// The evaluator credits own-hand card `k` of a player with knowledge `kv` as known
/// playable: `truth` does not see it as an unplayable identity, and the player holds a
/// baseline play signal on it, or its baseline narrowing or its public empathy is
/// non-empty and within `playable`.
pub open spec fn credited_playable(ts: TableState, v: Variant, kv: KnowledgeView, truth: LightweightPlayerPOV, playable: u64) -> spec_fn(int) -> bool {
    |k: int| {
        &&& in_mask(kv.own_hand, k)
        &&& !(truth.card_id(k) matches Some(t) && !in_mask(playable, t as int))
        &&& (has_play_in(kv.signals[k])
            || (kv.inferred[k] matches Some(m) && m.bits != 0 && m.bits & playable == m.bits)
            || (ts.empathy_of(k) != 0 && ts.empathy_of(k) & playable == ts.empathy_of(k)))
    }
}

/// Credited known playables of each player.
pub open spec fn credited_per_player(ts: TableState, v: Variant, team: TeamKnowledge, truth: LightweightPlayerPOV) -> spec_fn(int) -> nat {
    |p: int| count_below(MAX_CARDS_IN_DECK as int, credited_playable(ts, v, team.view_of(p), truth, ts.playable_mask(&v)))
}

/// Number of cards, over every hand, that their holder is credited with knowing to be
/// playable; a card `truth` sees as an unplayable identity is never credited.
pub fn known_playable_in_hands(table_state: &TableState, static_data: &StaticGameData, team_knowledge: &TeamKnowledge, truth: &LightweightPlayerPOV) -> (r: u32)
    requires
        table_state.wf(static_data),
        team_knowledge.wf(),
        team_knowledge.spec_num_players() == static_data.number_of_players,
        truth.wf(),
    ensures
        r == sum_below(static_data.number_of_players as int, credited_per_player(*table_state, static_data.variant, *team_knowledge, *truth)),
{
    proof {
        team_knowledge.lemma_wf();
    }
    let ghost f = credited_per_player(*table_state, static_data.variant, *team_knowledge, *truth);
    let playable_mask = table_state.playable_cards(static_data);
    let num_players = static_data.num_players();
    let mut total: u32 = 0;
    let mut p: usize = 0;
    while p < num_players
        invariant
            table_state.wf(static_data),
            team_knowledge.wf(),
            truth.wf(),
            num_players == static_data.number_of_players,
            num_players <= MAX_PLAYERS_IN_GAME,
            playable_mask == table_state.playable_mask(&static_data.variant),
            f == credited_per_player(*table_state, static_data.variant, *team_knowledge, *truth),
            p <= num_players,
            total == sum_below(p as int, f),
            total <= p * MAX_CARDS_IN_DECK,
        decreases num_players - p,
    {
        proof {
            team_knowledge.lemma_wf();
        }
        let pk = team_knowledge.player(p);
        let ghost pred = credited_playable(*table_state, static_data.variant, pk@, *truth, playable_mask);
        let mut count: u32 = 0;
        let mut k: u8 = 0;
        while k < MAX_CARDS_IN_DECK as u8
            invariant
                table_state.wf(static_data),
                truth.wf(),
                pk.wf(),
                playable_mask == table_state.playable_mask(&static_data.variant),
                pred == credited_playable(*table_state, static_data.variant, pk@, *truth, playable_mask),
                k <= MAX_CARDS_IN_DECK,
                count == count_below(k as int, pred),
                count <= k,
            decreases MAX_CARDS_IN_DECK - k,
        {
            let credited = if !test_bit(pk.own_hand, k) {
                false
            } else {
                let truth_unplayable = match truth.card_identity(k) {
                    Some(t) => !test_bit(playable_mask, t),
                    None => false,
                };
                if truth_unplayable {
                    false
                } else if pk.signals[k as usize].has_play() {
                    true
                } else {
                    let by_inferred = match &pk.inferred_identities[k as usize] {
                        Some(m) => {
                            let b = m.as_bits();
                            b != 0 && (b & playable_mask) == b
                        },
                        None => false,
                    };
                    if by_inferred {
                        true
                    } else {
                        let e = table_state.get_global_empathy(static_data, k).as_bits();
                        e != 0 && (e & playable_mask) == e
                    }
                }
            };
            assert(credited == pred(k as int));
            assert(count_below(k as int + 1, pred) == count_below(k as int, pred) + if pred(k as int) { 1nat } else { 0nat });
            if credited {
                count += 1;
            }
            k += 1;
        }
        assert(f(p as int) == count);
        assert(sum_below(p as int + 1, f) == sum_below(p as int, f) + f(p as int));
        total += count;
        p += 1;
    }
    total
}

/// Bits set in `m`.
pub open spec fn bit_set(m: u64) -> spec_fn(int) -> bool {
    |i: int| in_mask(m, i)
}

/// Number of identities in `m`.
pub open spec fn popcount(m: u64) -> nat {
    count_below(64, bit_set(m))
}

/// Number of identities in a mask.
pub fn count_possibilities(m: u64) -> (r: u32)
    ensures
        r == popcount(m),
        r <= 64,
{
    let ghost pred = bit_set(m);
    let mut count: u32 = 0;
    let mut i: u8 = 0;
    while i < 64
        invariant
            pred == bit_set(m),
            i <= 64,
            count == count_below(i as int, pred),
            count <= i,
        decreases 64 - i,
    {
        let set = test_bit(m, i);
        assert(set == pred(i as int));
        assert(count_below(i as int + 1, pred) == count_below(i as int, pred) + if pred(i as int) { 1nat } else { 0nat });
        if set {
            count += 1;
        }
        i += 1;
    }
    count
}

/// Identity information a player holds on card `k` of its own hand: the identities its
/// combined view excludes, out of `total`.
pub open spec fn excluded_ids(ts: TableState, v: Variant, kv: KnowledgeView, k: int) -> nat {
    let n = popcount(kv.combined(k, &ts, &v));
    if n >= v.total_ids() { 0 } else { (v.total_ids() - n) as nat }
}

/// Excluded identities over a player's own hand, restricted to clue-touched cards when
/// `touched_only`.
pub open spec fn excluded_in_hand(ts: TableState, v: Variant, kv: KnowledgeView, touched_only: bool) -> spec_fn(int) -> nat {
    |k: int| if in_mask(kv.own_hand, k) && (!touched_only || ts.touched(k)) { excluded_ids(ts, v, kv, k) } else { 0 }
}

/// Excluded identities of each player.
pub open spec fn excluded_per_player(ts: TableState, v: Variant, team: TeamKnowledge, touched_only: bool) -> spec_fn(int) -> nat {
    |p: int| sum_below(MAX_CARDS_IN_DECK as int, excluded_in_hand(ts, v, team.view_of(p), touched_only))
}

/// Sum, over every player and every card of its own hand (only clue-touched ones when
/// `touched_only`), of the identities the player's combined view excludes.
fn excluded_identities(table_state: &TableState, static_data: &StaticGameData, team_knowledge: &TeamKnowledge, touched_only: bool) -> (r: u32)
    requires
        table_state.wf(static_data),
        team_knowledge.wf(),
        team_knowledge.spec_num_players() == static_data.number_of_players,
    ensures
        r == sum_below(static_data.number_of_players as int, excluded_per_player(*table_state, static_data.variant, *team_knowledge, touched_only)),
{
    proof {
        team_knowledge.lemma_wf();
    }
    let ghost f = excluded_per_player(*table_state, static_data.variant, *team_knowledge, touched_only);
    let total_ids = static_data.variant.total_id_count() as u32;
    let num_players = static_data.num_players();
    let mut total: u32 = 0;
    let mut p: usize = 0;
    while p < num_players
        invariant
            table_state.wf(static_data),
            team_knowledge.wf(),
            num_players == static_data.number_of_players,
            num_players <= MAX_PLAYERS_IN_GAME,
            total_ids == static_data.variant.total_ids(),
            total_ids <= 30,
            f == excluded_per_player(*table_state, static_data.variant, *team_knowledge, touched_only),
            p <= num_players,
            total == sum_below(p as int, f),
            total <= p * 1800,
        decreases num_players - p,
    {
        proof {
            team_knowledge.lemma_wf();
        }
        let pk = team_knowledge.player(p);
        let ghost g = excluded_in_hand(*table_state, static_data.variant, pk@, touched_only);
        let mut sum: u32 = 0;
        let mut k: u8 = 0;
        while k < MAX_CARDS_IN_DECK as u8
            invariant
                table_state.wf(static_data),
                pk.wf(),
                total_ids == static_data.variant.total_ids(),
                total_ids <= 30,
                g == excluded_in_hand(*table_state, static_data.variant, pk@, touched_only),
                k <= MAX_CARDS_IN_DECK,
                sum == sum_below(k as int, g),
                sum <= k * 30,
            decreases MAX_CARDS_IN_DECK - k,
        {
            let counted = test_bit(pk.own_hand, k) && (!touched_only || table_state.is_touched(k));
            let value: u32 = if counted {
                let n = count_possibilities(pk.combined_possible_identities(k, table_state, static_data).as_bits());
                if n >= total_ids { 0 } else { total_ids - n }
            } else {
                0
            };
            assert(value == g(k as int));
            assert(sum_below(k as int + 1, g) == sum_below(k as int, g) + g(k as int));
            sum += value;
            k += 1;
        }
        assert(k == MAX_CARDS_IN_DECK);
        assert(sum <= 1800);
        assert(f(p as int) == sum);
        assert(sum_below(p as int + 1, f) == sum_below(p as int, f) + f(p as int));
        total += sum;
        p += 1;
    }
    total
}

/// Identity information conveyed by clues: over every player's clue-touched own cards, the
/// identities its combined view excludes.
pub fn empathy_precision(table_state: &TableState, static_data: &StaticGameData, team_knowledge: &TeamKnowledge) -> (r: u32)
    requires
        table_state.wf(static_data),
        team_knowledge.wf(),
        team_knowledge.spec_num_players() == static_data.number_of_players,
    ensures
        r == sum_below(static_data.number_of_players as int, excluded_per_player(*table_state, static_data.variant, *team_knowledge, true)),
{
    excluded_identities(table_state, static_data, team_knowledge, true)
}

/// Team-wide identity information: over every player's own cards, the identities its
/// combined view excludes. Divided by the number of identities it is the fraction of
/// uncertainty eliminated, summed over cards.
pub fn team_empathy_excluded(table_state: &TableState, static_data: &StaticGameData, team_knowledge: &TeamKnowledge) -> (r: u32)
    requires
        table_state.wf(static_data),
        team_knowledge.wf(),
        team_knowledge.spec_num_players() == static_data.number_of_players,
    ensures
        r == sum_below(static_data.number_of_players as int, excluded_per_player(*table_state, static_data.variant, *team_knowledge, false)),
{
    excluded_identities(table_state, static_data, team_knowledge, false)
}

/// Own-hand card `k` is exactly known to its holder.
pub open spec fn resolved_own(ts: TableState, v: Variant, kv: KnowledgeView) -> spec_fn(int) -> bool {
    |k: int| in_mask(kv.own_hand, k) && crate::bits::is_singleton(kv.combined(k, &ts, &v))
}

/// Exactly known own cards of each player.
pub open spec fn resolved_per_player(ts: TableState, v: Variant, team: TeamKnowledge) -> spec_fn(int) -> nat {
    |p: int| count_below(MAX_CARDS_IN_DECK as int, resolved_own(ts, v, team.view_of(p)))
}

/// Number of own-hand cards, over every player, whose identity the holder knows exactly.
pub fn resolved_card_count(static_data: &StaticGameData, team_knowledge: &TeamKnowledge, table_state: &TableState) -> (r: u32)
    requires
        table_state.wf(static_data),
        team_knowledge.wf(),
        team_knowledge.spec_num_players() == static_data.number_of_players,
    ensures
        r == sum_below(static_data.number_of_players as int, resolved_per_player(*table_state, static_data.variant, *team_knowledge)),
{
    proof {
        team_knowledge.lemma_wf();
    }
    let ghost f = resolved_per_player(*table_state, static_data.variant, *team_knowledge);
    let num_players = static_data.num_players();
    let mut total: u32 = 0;
    let mut p: usize = 0;
    while p < num_players
        invariant
            table_state.wf(static_data),
            team_knowledge.wf(),
            num_players == static_data.number_of_players,
            num_players <= MAX_PLAYERS_IN_GAME,
            f == resolved_per_player(*table_state, static_data.variant, *team_knowledge),
            p <= num_players,
            total == sum_below(p as int, f),
            total <= p * MAX_CARDS_IN_DECK,
        decreases num_players - p,
    {
        proof {
            team_knowledge.lemma_wf();
        }
        let pk = team_knowledge.player(p);
        let ghost pred = resolved_own(*table_state, static_data.variant, pk@);
        let mut count: u32 = 0;
        let mut k: u8 = 0;
        while k < MAX_CARDS_IN_DECK as u8
            invariant
                table_state.wf(static_data),
                pk.wf(),
                pred == resolved_own(*table_state, static_data.variant, pk@),
                k <= MAX_CARDS_IN_DECK,
                count == count_below(k as int, pred),
                count <= k,
            decreases MAX_CARDS_IN_DECK - k,
        {
            let resolved = test_bit(pk.own_hand, k) && pk.combined_possible_identities(k, table_state, static_data).is_exactly_known();
            assert(resolved == pred(k as int));
            assert(count_below(k as int + 1, pred) == count_below(k as int, pred) + if pred(k as int) { 1nat } else { 0nat });
            if resolved {
                count += 1;
            }
            k += 1;
        }
        assert(f(p as int) == count);
        assert(sum_below(p as int + 1, f) == sum_below(p as int, f) + f(p as int));
        total += count;
        p += 1;
    }
    total
}

// ── Clue demand ──────────────────────────────────────────────────────────────

/// For each untouched card of `s`, in order: the larger of the number of its public
/// identities that are playable and that are critical, and its number of public identities.
pub open spec fn demand_terms_of(ts: TableState, playable: u64, critical: u64, s: Seq<u8>) -> Seq<(u32, u32)>
    decreases s.len(),
{
    if s.len() == 0 {
        Seq::empty()
    } else {
        let rest = demand_terms_of(ts, playable, critical, s.drop_last());
        let idx = s.last() as int;
        if ts.touched(idx) {
            rest
        } else {
            let e = ts.empathy_of(idx);
            let a = popcount(e & playable);
            let b = popcount(e & critical);
            rest.push(((if a >= b { a } else { b }) as u32, popcount(e) as u32))
        }
    }
}

/// Demand terms of the hands of players `0..n`, player by player.
pub open spec fn demand_terms(ts: TableState, v: Variant, n: int) -> Seq<(u32, u32)>
    decreases n,
{
    if n <= 0 {
        Seq::empty()
    } else {
        demand_terms(ts, v, n - 1) + demand_terms_of(ts, ts.playable_mask(&v), critical_mask_spec(&ts, &v), ts.hand(n - 1))
    }
}

/// How much the untouched cards of every hand call for a clue: for each such card, the
/// larger of its playable and its critical public identities, with its number of public
/// identities; the demand is the sum of the first over the second (zero identities
/// counting nothing).
pub fn clue_demand_terms(table_state: &TableState, static_data: &StaticGameData) -> (r: Vec<(u32, u32)>)
    requires
        table_state.wf(static_data),
    ensures
        r@ == demand_terms(*table_state, static_data.variant, static_data.number_of_players as int),
{
    let playable_mask = table_state.playable_cards(static_data);
    let critical = critical_mask(table_state, static_data);
    let num_players = static_data.num_players();
    let mut out: Vec<(u32, u32)> = Vec::new();
    let mut p: usize = 0;
    while p < num_players
        invariant
            table_state.wf(static_data),
            num_players == static_data.number_of_players,
            playable_mask == table_state.playable_mask(&static_data.variant),
            critical == critical_mask_spec(table_state, &static_data.variant),
            p <= num_players,
            out@ == demand_terms(*table_state, static_data.variant, p as int),
        decreases num_players - p,
    {
        let hand = &table_state.hands[p];
        let ghost before = out@;
        let mut k: usize = 0;
        while k < hand.len()
            invariant
                table_state.wf(static_data),
                p < num_players,
                num_players == static_data.number_of_players,
                hand@ == table_state.hand(p as int),
                k <= hand@.len(),
                out@ == before + demand_terms_of(*table_state, playable_mask, critical, hand@.subrange(0, k as int)),
            decreases hand.len() - k,
        {
            let idx = hand[k];
            proof {
                let t = hand@.subrange(0, k + 1);
                assert(t.drop_last() == hand@.subrange(0, k as int));
                assert(t.last() == idx);
            }
            if !table_state.is_touched(idx) {
                let e = table_state.get_global_empathy(static_data, idx).as_bits();
                let a = count_possibilities(e & playable_mask);
                let b = count_possibilities(e & critical);
                out.push((if a >= b { a } else { b }, count_possibilities(e)));
            }
            k += 1;
        }
        assert(hand@.subrange(0, hand@.len() as int) == hand@);
        p += 1;
    }
    out
}

// ── Misinformation ───────────────────────────────────────────────────────────

/// For each card of a player's own hand below `k` whose identity `truth` knows, in order:
/// the number of effective identities the player allows when the true one is among them,
/// and zero when the player has excluded it.
pub open spec fn misinformation_terms_upto(kv: KnowledgeView, v: Variant, truth: LightweightPlayerPOV, k: int) -> Seq<u32>
    decreases k,
{
    if k <= 0 {
        Seq::empty()
    } else {
        let rest = misinformation_terms_upto(kv, v, truth, k - 1);
        let i = k - 1;
        if in_mask(kv.own_hand, i) {
            match truth.card_id(i) {
                Some(t) => {
                    let eff = kv.effective_mask(i, &v);
                    rest.push(if in_mask(eff, t as int) { popcount(eff) as u32 } else { 0u32 })
                },
                None => rest,
            }
        } else {
            rest
        }
    }
}

/// Misinformation terms of players `0..n`, player by player.
pub open spec fn misinformation_terms(team: TeamKnowledge, v: Variant, truth: LightweightPlayerPOV, n: int) -> Seq<u32>
    decreases n,
{
    if n <= 0 {
        Seq::empty()
    } else {
        misinformation_terms(team, v, truth, n - 1) + misinformation_terms_upto(team.view_of(n - 1), v, truth, MAX_CARDS_IN_DECK as int)
    }
}

/// For every own-hand card whose true identity `truth` knows: zero when its holder's
/// effective identities exclude the truth (a committed misreading), else the number of
/// identities the holder still allows (one being exact knowledge).
pub fn misinformation_counts(static_data: &StaticGameData, team_knowledge: &TeamKnowledge, truth: &LightweightPlayerPOV) -> (r: Vec<u32>)
    requires
        static_data.wf(),
        team_knowledge.wf(),
        team_knowledge.spec_num_players() == static_data.number_of_players,
        truth.wf(),
    ensures
        r@ == misinformation_terms(*team_knowledge, static_data.variant, *truth, static_data.number_of_players as int),
{
    proof {
        team_knowledge.lemma_wf();
    }
    let num_players = static_data.num_players();
    let mut out: Vec<u32> = Vec::new();
    let mut p: usize = 0;
    while p < num_players
        invariant
            static_data.wf(),
            team_knowledge.wf(),
            truth.wf(),
            num_players == static_data.number_of_players,
            num_players <= MAX_PLAYERS_IN_GAME,
            p <= num_players,
            out@ == misinformation_terms(*team_knowledge, static_data.variant, *truth, p as int),
        decreases num_players - p,
    {
        proof {
            team_knowledge.lemma_wf();
        }
        let pk = team_knowledge.player(p);
        let ghost before = out@;
        let mut k: u8 = 0;
        while k < MAX_CARDS_IN_DECK as u8
            invariant
                static_data.wf(),
                truth.wf(),
                pk.wf(),
                k <= MAX_CARDS_IN_DECK,
                out@ == before + misinformation_terms_upto(pk@, static_data.variant, *truth, k as int),
            decreases MAX_CARDS_IN_DECK - k,
        {
            if test_bit(pk.own_hand, k) {
                if let Some(t) = truth.card_identity(k) {
                    let eff = pk.effective_inferred_mask(k, &static_data.variant).as_bits();
                    let term = if test_bit(eff, t) { count_possibilities(eff) } else { 0 };
                    out.push(term);
                }
            }
            k += 1;
        }
        p += 1;
    }
    out
}

// ── Bottom-deck risk ─────────────────────────────────────────────────────────

/// Union of the identities `truth` knows among the cards of `s` other than `skip`.
pub open spec fn known_ids_except(truth: LightweightPlayerPOV, s: Seq<u8>, skip: u8) -> u64
    decreases s.len(),
{
    if s.len() == 0 {
        0
    } else {
        known_ids_except(truth, s.drop_last(), skip) | if s.last() == skip {
            0u64
        } else {
            match truth.card_id(s.last() as int) {
                Some(id) => single(id as int),
                None => 0u64,
            }
        }
    }
}

/// Union of the identities `truth` knows in the hands of players `0..n`, except `skip`.
pub open spec fn visible_ids_except(truth: LightweightPlayerPOV, ts: TableState, n: int, skip: u8) -> u64
    decreases n,
{
    if n <= 0 {
        0
    } else {
        visible_ids_except(truth, ts, n - 1, skip) | known_ids_except(truth, ts.hand(n - 1), skip)
    }
}

/// Discarding a card that may be `id` would leave a single copy of `id`, a needed card
/// of a non-final rank, whose surviving copy no hand visibly holds.
pub open spec fn bottom_deck_exposed(ts: TableState, v: Variant, candidates: u64, visible: u64, id: int) -> bool {
    &&& in_mask(candidates, id)
    &&& 0 <= id < v.total_ids()
    &&& id % 5 != 4
    &&& !ts.is_played(id)
    &&& ts.discarded(id) + 2 == v.copies(id)
    &&& !in_mask(visible, id)
}

/// Ranks that could be lost through each exposed identity.
pub open spec fn exposed_loss(ts: TableState, v: Variant, candidates: u64, visible: u64) -> spec_fn(int) -> nat {
    |id: int| if bottom_deck_exposed(ts, v, candidates, visible, id) { reachable_run(ts, v, id - id % 5, id % 5) } else { 0 }
}

/// Identities the discarded card may have: the one `truth` knows, else its public empathy.
pub open spec fn discard_candidates(truth: LightweightPlayerPOV, ts: TableState, idx: int) -> u64 {
    match truth.card_id(idx) {
        Some(t) => single(t as int),
        None => ts.empathy_of(idx),
    }
}

/// Risk of discarding card `discarded_deck_idx` that the surviving copy of an identity it
/// may have lies at the bottom of the deck: returns the number of identities the card may
/// have and the total of ranks lost over the identities whose last copy this discard would
/// expose. With a draw pile of `d` cards the expected loss is the second over the first
/// times `max(d, 1)`.
pub fn bottom_deck_risk_terms(discarded_deck_idx: CardDeckIndex, table_state: &TableState, static_data: &StaticGameData, truth: &LightweightPlayerPOV) -> (r: (u32, u32))
    requires
        table_state.wf(static_data),
        truth.wf(),
        discarded_deck_idx < MAX_CARDS_IN_DECK,
    ensures
        ({
            let candidates = discard_candidates(*truth, *table_state, discarded_deck_idx as int);
            let visible = visible_ids_except(*truth, *table_state, static_data.number_of_players as int, discarded_deck_idx);
            &&& r.0 == popcount(candidates)
            &&& r.1 == sum_below(static_data.variant.total_ids(), exposed_loss(*table_state, static_data.variant, candidates, visible))
        }),
{
    let v = &static_data.variant;
    let candidates = match truth.card_identity(discarded_deck_idx) {
        Some(t) => bit(t),
        None => table_state.get_global_empathy(static_data, discarded_deck_idx).as_bits(),
    };
    let num_players = static_data.num_players();
    let mut visible: u64 = 0;
    let mut p: usize = 0;
    while p < num_players
        invariant
            table_state.wf(static_data),
            truth.wf(),
            num_players == static_data.number_of_players,
            p <= num_players,
            visible == visible_ids_except(*truth, *table_state, p as int, discarded_deck_idx),
        decreases num_players - p,
    {
        let hand = &table_state.hands[p];
        let mut hand_bits: u64 = 0;
        let mut k: usize = 0;
        while k < hand.len()
            invariant
                table_state.wf(static_data),
                truth.wf(),
                p < num_players,
                num_players == static_data.number_of_players,
                hand@ == table_state.hand(p as int),
                k <= hand@.len(),
                hand_bits == known_ids_except(*truth, hand@.subrange(0, k as int), discarded_deck_idx),
            decreases hand.len() - k,
        {
            let di = hand[k];
            proof {
                let t = hand@.subrange(0, k + 1);
                assert(t.drop_last() == hand@.subrange(0, k as int));
                assert(t.last() == di);
            }
            let add: u64 = if di == discarded_deck_idx {
                0
            } else {
                match truth.card_identity(di) {
                    Some(id) => bit(id),
                    None => 0,
                }
            };
            hand_bits = hand_bits | add;
            k += 1;
        }
        assert(hand@.subrange(0, hand@.len() as int) == hand@);
        visible = visible | hand_bits;
        p += 1;
    }
    let ghost f = exposed_loss(*table_state, *v, candidates, visible);
    let total = v.total_id_count();
    let mut loss: u32 = 0;
    let mut id: u8 = 0;
    while id < total
        invariant
            table_state.wf(static_data),
            *v == static_data.variant,
            total == v.total_ids(),
            total <= 30,
            f == exposed_loss(*table_state, *v, candidates, visible),
            id <= total,
            loss == sum_below(id as int, f),
            loss <= id * 5,
        decreases total - id,
    {
        let exposed = test_bit(candidates, id) && id % 5 != 4
            && !table_state.contains_card_with_id(static_data, id)
            && table_state.copies_discarded(static_data, id) as u16 + 2 == v.copies_of(id) as u16
            && !test_bit(visible, id);
        let mut run: u32 = 0;
        if exposed {
            let base = id - id % 5;
            let mut r: u8 = id % 5;
            while r < 5
                invariant
                    table_state.wf(static_data),
                    *v == static_data.variant,
                    total == v.total_ids(),
                    id < total,
                    base == id - id % 5,
                    id % 5 <= r <= 5,
                    run + reachable_run(*table_state, *v, base as int, r as int) == reachable_run(*table_state, *v, base as int, (id % 5) as int),
                    run == r - id % 5,
                ensures
                    run == reachable_run(*table_state, *v, base as int, (id % 5) as int),
                decreases 5 - r,
            {
                if table_state.copies_discarded(static_data, base + r) >= v.copies_of(base + r) {
                    assert(reachable_run(*table_state, *v, base as int, r as int) == 0);
                    break;
                }
                run += 1;
                r += 1;
            }
        }
        assert(exposed == bottom_deck_exposed(*table_state, *v, candidates, visible, id as int));
        assert(exposed ==> run == reachable_run(*table_state, *v, (id - id % 5) as int, (id % 5) as int));
        assert(run == f(id as int));
        assert(sum_below(id as int + 1, f) == sum_below(id as int, f) + f(id as int));
        loss += run;
        id += 1;
    }
    (count_possibilities(candidates), loss)
}

// ── Critical exposure ────────────────────────────────────────────────────────

/// Card `c` of player `p`'s hand delays its discards: the player knows it is trash or
/// knows it is playable.
pub open spec fn is_buffer(team: TeamKnowledge, ts: TableState, v: Variant, p: int, playable: u64, c: int) -> bool {
    trash_for(team.view_of(p), ts, v, c) || known_playable_in(team, team.view_of(p), p, &v, c, playable)
}

/// Number of buffer cards in `s`.
pub open spec fn buffer_count(team: TeamKnowledge, ts: TableState, v: Variant, p: int, playable: u64, s: Seq<u8>) -> nat
    decreases s.len(),
{
    if s.len() == 0 {
        0
    } else {
        buffer_count(team, ts, v, p, playable, s.drop_last()) + if is_buffer(team, ts, v, p, playable, s.last() as int) { 1nat } else { 0nat }
    }
}

/// The cards of hand `s` (newest first) the player would discard, in discard order: from
/// the oldest, the untouched cards that are not buffer.
pub open spec fn discard_order(team: TeamKnowledge, ts: TableState, v: Variant, p: int, playable: u64, s: Seq<u8>) -> Seq<u8>
    decreases s.len(),
{
    if s.len() == 0 {
        Seq::empty()
    } else {
        let rest = discard_order(team, ts, v, p, playable, s.drop_first());
        if !is_buffer(team, ts, v, p, playable, s[0] as int) && !ts.touched(s[0] as int) {
            rest.push(s[0])
        } else {
            rest
        }
    }
}

/// For each card of `order` that `truth` knows to be a critical identity: `buffer` and the
/// card's position in `order` (zero for the chop).
pub open spec fn exposure_terms(truth: LightweightPlayerPOV, critical: u64, order: Seq<u8>, buffer: nat) -> Seq<(usize, usize)>
    decreases order.len(),
{
    if order.len() == 0 {
        Seq::empty()
    } else {
        let rest = exposure_terms(truth, critical, order.drop_last(), buffer);
        match truth.card_id(order.last() as int) {
            Some(id) => if in_mask(critical, id as int) {
                rest.push((buffer as usize, (order.len() - 1) as usize))
            } else {
                rest
            },
            None => rest,
        }
    }
}

/// Exposure terms of player `p`'s hand.
pub open spec fn player_exposures(team: TeamKnowledge, ts: TableState, v: Variant, truth: LightweightPlayerPOV, p: int) -> Seq<(usize, usize)> {
    let playable = ts.playable_mask(&v);
    let s = ts.hand(p);
    exposure_terms(truth, critical_mask_spec(&ts, &v), discard_order(team, ts, v, p, playable, s), buffer_count(team, ts, v, p, playable, s))
}

/// Exposure terms of the hands of players `0..n`.
pub open spec fn exposures_upto(team: TeamKnowledge, ts: TableState, v: Variant, truth: LightweightPlayerPOV, n: int) -> Seq<(usize, usize)>
    decreases n,
{
    if n <= 0 {
        Seq::empty()
    } else {
        exposures_upto(team, ts, v, truth, n - 1) + player_exposures(team, ts, v, truth, n - 1)
    }
}

/// Every critical card, as `truth` sees it, on the way to being discarded: for each, the
/// number of buffer cards its holder has (known trash or known playable, each an action
/// taken before any discard) and its position in the holder's discard order, zero being
/// the chop. Touched cards that are not buffer are kept and never listed.
pub fn critical_exposures(table_state: &TableState, static_data: &StaticGameData, team_knowledge: &TeamKnowledge, truth: &LightweightPlayerPOV) -> (r: Vec<(usize, usize)>)
    requires
        table_state.wf(static_data),
        team_knowledge.wf(),
        team_knowledge.spec_num_players() == static_data.number_of_players,
        truth.wf(),
    ensures
        r@ == exposures_upto(*team_knowledge, *table_state, static_data.variant, *truth, static_data.number_of_players as int),
{
    proof {
        team_knowledge.lemma_wf();
    }
    let critical = critical_mask(table_state, static_data);
    let playable_mask = table_state.playable_cards(static_data);
    let num_players = static_data.num_players();
    let mut out: Vec<(usize, usize)> = Vec::new();
    let mut p: usize = 0;
    while p < num_players
        invariant
            table_state.wf(static_data),
            team_knowledge.wf(),
            team_knowledge.spec_num_players() == static_data.number_of_players,
            truth.wf(),
            num_players == static_data.number_of_players,
            num_players <= MAX_PLAYERS_IN_GAME,
            critical == critical_mask_spec(table_state, &static_data.variant),
            playable_mask == table_state.playable_mask(&static_data.variant),
            p <= num_players,
            out@ == exposures_upto(*team_knowledge, *table_state, static_data.variant, *truth, p as int),
        decreases num_players - p,
    {
        proof {
            team_knowledge.lemma_wf();
        }
        let ghost team = *team_knowledge;
        let ghost ts = *table_state;
        let ghost v = static_data.variant;
        let pk = team_knowledge.player(p);
        let pov = LightweightPlayerPOV::new(p, pk, team_knowledge, table_state, static_data);
        let hand = &table_state.hands[p];
        let mut buffer: usize = 0;
        let mut k: usize = 0;
        while k < hand.len()
            invariant
                pov.wf(),
                pov.me() == p,
                pov.kv() == team.view_of(p as int),
                pov.team() == team,
                pov.ts() == ts,
                pov.v() == v,
                hand@ == ts.hand(p as int),
                forall|j: int| 0 <= j < hand@.len() ==> #[trigger] hand@[j] < MAX_CARDS_IN_DECK,
                k <= hand@.len(),
                buffer == buffer_count(team, ts, v, p as int, playable_mask, hand@.subrange(0, k as int)),
                buffer <= k,
            decreases hand.len() - k,
        {
            let c = hand[k];
            proof {
                let t = hand@.subrange(0, k + 1);
                assert(t.drop_last() == hand@.subrange(0, k as int));
                assert(t.last() == c);
            }
            if pov.is_known_trash(c) || card_known_playable(&pov, c, playable_mask) {
                buffer += 1;
            }
            k += 1;
        }
        assert(hand@.subrange(0, hand@.len() as int) == hand@);
        let mut order: Vec<u8> = Vec::new();
        let mut k: usize = hand.len();
        while k > 0
            invariant
                pov.wf(),
                pov.me() == p,
                pov.kv() == team.view_of(p as int),
                pov.team() == team,
                pov.ts() == ts,
                pov.v() == v,
                hand@ == ts.hand(p as int),
                forall|j: int| 0 <= j < hand@.len() ==> #[trigger] hand@[j] < MAX_CARDS_IN_DECK,
                k <= hand@.len(),
                order@ == discard_order(team, ts, v, p as int, playable_mask, hand@.subrange(k as int, hand@.len() as int)),
                forall|i: int| 0 <= i < order@.len() ==> #[trigger] order@[i] < MAX_CARDS_IN_DECK,
            decreases k,
        {
            let c = hand[k - 1];
            proof {
                let t = hand@.subrange(k - 1, hand@.len() as int);
                assert(t.drop_first() == hand@.subrange(k as int, hand@.len() as int));
                assert(t[0] == c);
            }
            if !(pov.is_known_trash(c) || card_known_playable(&pov, c, playable_mask)) && !pov.is_touched(c) {
                order.push(c);
            }
            k -= 1;
        }
        assert(hand@.subrange(0, hand@.len() as int) == hand@);
        let ghost before = out@;
        let mut j: usize = 0;
        while j < order.len()
            invariant
                truth.wf(),
                forall|i: int| 0 <= i < order@.len() ==> #[trigger] order@[i] < MAX_CARDS_IN_DECK,
                j <= order@.len(),
                out@ == before + exposure_terms(*truth, critical, order@.subrange(0, j as int), buffer as nat),
            decreases order.len() - j,
        {
            let c = order[j];
            proof {
                let t = order@.subrange(0, j + 1);
                assert(t.drop_last() == order@.subrange(0, j as int));
                assert(t.last() == c);
            }
            if let Some(id) = truth.card_identity(c) {
                if test_bit(critical, id) {
                    out.push((buffer, j));
                }
            }
            j += 1;
        }
        assert(order@.subrange(0, order@.len() as int) == order@);
        p += 1;
    }
    out
}

// ── Ignored play signals ─────────────────────────────────────────────────────

/// Own-hand card `k` carries a play signal on an untouched card: the holder must play it.
pub open spec fn pending_blind_play(kv: KnowledgeView, ts: TableState, k: int) -> bool {
    &&& 0 <= k < MAX_CARDS_IN_DECK
    &&& in_mask(kv.own_hand, k)
    &&& !ts.touched(k)
    &&& kv.play_signal(k)
}

/// `actor` holds a blind-play signal on an untouched card and `action` does not play one
/// such card: it breaks the rule that a signalled blind play is made at once.
pub fn ignores_play_signal(action: &GameAction, actor: PlayerIndex, team_knowledge: &TeamKnowledge, table_state: &TableState) -> (r: bool)
    requires
        team_knowledge.wf(),
        actor < MAX_PLAYERS_IN_GAME,
    ensures
        r == ((exists|k: int| pending_blind_play(team_knowledge.view_of(actor as int), *table_state, k))
            && !(*action matches GameAction::Play { card_deck_index, .. }
                && pending_blind_play(team_knowledge.view_of(actor as int), *table_state, card_deck_index as int))),
{
    proof {
        team_knowledge.lemma_wf();
    }
    let pk = team_knowledge.player(actor);
    let played: Option<CardDeckIndex> = match action {
        GameAction::Play { card_deck_index, .. } => Some(*card_deck_index),
        _ => None,
    };
    let mut any_signal = false;
    let mut k: u8 = 0;
    while k < MAX_CARDS_IN_DECK as u8
        invariant
            pk.wf(),
            pk@ == team_knowledge.view_of(actor as int),
            k <= MAX_CARDS_IN_DECK,
            played == (match *action { GameAction::Play { card_deck_index, .. } => Some(card_deck_index), _ => None }),
            any_signal == exists|j: int| 0 <= j < k && pending_blind_play(pk@, *table_state, j),
            (match played { Some(c) => c < k ==> !pending_blind_play(pk@, *table_state, c as int), None => true }),
        decreases MAX_CARDS_IN_DECK - k,
    {
        if test_bit(pk.own_hand, k) && !table_state.is_touched(k) && pk.has_play_signal(k) {
            assert(pending_blind_play(pk@, *table_state, k as int));
            if played == Some(k) {
                return false;
            }
            any_signal = true;
        }
        k += 1;
    }
    proof {
        if exists|j: int| pending_blind_play(pk@, *table_state, j) {
            let j = choose|j: int| pending_blind_play(pk@, *table_state, j);
            assert(0 <= j < k);
        }
        if let Some(c) = played {
            if pending_blind_play(pk@, *table_state, c as int) {
                assert(c < k);
            }
        }
    }
    any_signal
}

// ── Clue precision ───────────────────────────────────────────────────────────

/// Cards of `touched` whose identity the receiver now knows exactly.
pub open spec fn resolved_touched(kv: KnowledgeView, ts: TableState, v: Variant, touched: Seq<u8>) -> nat
    decreases touched.len(),
{
    if touched.len() == 0 {
        0
    } else {
        resolved_touched(kv, ts, v, touched.drop_last()) + if crate::bits::is_singleton(kv.combined(touched.last() as int, &ts, &v)) { 1nat } else { 0nat }
    }
}

/// Number of touched cards the receiver of a clue knows exactly once it is applied.
pub fn resolved_touched_count(touched: &[CardDeckIndex], receiver: PlayerIndex, static_data: &StaticGameData, team_knowledge: &TeamKnowledge, table_state: &TableState) -> (r: usize)
    requires
        table_state.wf(static_data),
        team_knowledge.wf(),
        receiver < MAX_PLAYERS_IN_GAME,
        forall|k: int| 0 <= k < touched@.len() ==> #[trigger] touched@[k] < MAX_CARDS_IN_DECK,
    ensures
        r == resolved_touched(team_knowledge.view_of(receiver as int), *table_state, static_data.variant, touched@),
{
    proof {
        team_knowledge.lemma_wf();
    }
    let pk = team_knowledge.player(receiver);
    let mut count: usize = 0;
    let mut k: usize = 0;
    while k < touched.len()
        invariant
            table_state.wf(static_data),
            pk.wf(),
            pk@ == team_knowledge.view_of(receiver as int),
            forall|j: int| 0 <= j < touched@.len() ==> #[trigger] touched@[j] < MAX_CARDS_IN_DECK,
            k <= touched@.len(),
            count == resolved_touched(pk@, *table_state, static_data.variant, touched@.subrange(0, k as int)),
            count <= k,
        decreases touched.len() - k,
    {
        proof {
            let t = touched@.subrange(0, k + 1);
            assert(t.drop_last() == touched@.subrange(0, k as int));
            assert(t.last() == touched@[k as int]);
        }
        if pk.combined_possible_identities(touched[k], table_state, static_data).is_exactly_known() {
            count += 1;
        }
        k += 1;
    }
    assert(touched@.subrange(0, touched@.len() as int) == touched@);
    count
}

// ── Critical saves made or skipped ───────────────────────────────────────────

/// Sum of `f(t)` over `t` below `n`.
pub open spec fn sum_int_below(n: int, f: spec_fn(int) -> int) -> int
    decreases n,
{
    if n <= 0 {
        0
    } else {
        sum_int_below(n - 1, f) + f(n - 1)
    }
}

/// Known playables of player `q` as the team records its knowledge.
pub open spec fn kp_of(team: TeamKnowledge, ts: TableState, v: Variant, q: int) -> nat {
    known_playable_count(team, team.view_of(q), q, &v, ts.playable_mask(&v))
}

/// Turns from `actor` to `t` among `n` players.
pub open spec fn turn_distance(actor: int, t: int, n: int) -> int {
    if t > actor { t - actor } else { t + n - actor }
}

/// The player `j` turns after `actor` among `n` players, for `j < n`.
pub open spec fn seat_after(actor: int, j: int, n: int) -> int {
    if actor + j < n { actor + j } else { actor + j - n }
}

/// A player acting strictly between `actor` and `t` knows of fewer playables than `actor`:
/// that player, freer to act, is the natural one to save.
pub open spec fn freer_between(team: TeamKnowledge, ts: TableState, v: Variant, n: int, actor: int, t: int) -> bool {
    exists|j: int| 1 <= j < turn_distance(actor, t, n)
        && #[trigger] kp_of(team, ts, v, seat_after(actor, j, n)) < kp_of(team, ts, v, actor)
}

/// Contribution of teammate `t`: when `truth` sees a critical card on `t`'s chop before
/// the action, +1 when the action got it touched, -1 when it stays exposed although a clue
/// token was available, it is still critical afterwards and nobody freer acts before `t`.
pub open spec fn exposure_delta_of(
    pre_team: TeamKnowledge,
    pre_ts: TableState,
    post_ts: TableState,
    v: Variant,
    truth: LightweightPlayerPOV,
    actor: int,
    n: int,
) -> spec_fn(int) -> int {
    |t: int|
        if t == actor {
            0
        } else {
            match crate::engine::convention::hgroup::h_group_core::last_untouched(pre_ts, pre_ts.hand(t)) {
                None => 0,
                Some(c) => match truth.card_id(c as int) {
                    None => 0,
                    Some(id) => if !in_mask(critical_mask_spec(&pre_ts, &v), id as int) {
                        0
                    } else if post_ts.touched(c as int) {
                        1
                    } else if pre_ts.clue_tokens > 0 && in_mask(critical_mask_spec(&post_ts, &v), id as int)
                        && !freer_between(pre_team, pre_ts, v, n, actor, t) {
                        -1
                    } else {
                        0
                    },
                },
            }
        }
}

/// Each teammate contributes at most one save or one skipped save, and the actor none:
/// the net count over one action lies within the number of teammates.
pub proof fn lemma_exposure_delta_bounded(
    pre_team: TeamKnowledge,
    pre_ts: TableState,
    post_ts: TableState,
    v: Variant,
    truth: LightweightPlayerPOV,
    actor: int,
    n: int,
)
    requires
        0 <= actor < n,
    ensures
        -(n - 1) <= sum_int_below(n, exposure_delta_of(pre_team, pre_ts, post_ts, v, truth, actor, n)) <= n - 1,
{
    let f = exposure_delta_of(pre_team, pre_ts, post_ts, v, truth, actor, n);
    lemma_exposure_delta_partial(f, actor, n, n);
}

proof fn lemma_exposure_delta_partial(f: spec_fn(int) -> int, actor: int, n: int, k: int)
    requires
        0 <= actor < n,
        0 <= k <= n,
        forall|t: int| -1 <= #[trigger] f(t) <= 1,
        f(actor) == 0,
    ensures
        -(k - if actor < k { 1int } else { 0int }) <= sum_int_below(k, f) <= k - if actor < k { 1int } else { 0int },
    decreases k,
{
    if k > 0 {
        lemma_exposure_delta_partial(f, actor, n, k - 1);
        assert(-1 <= f(k - 1) <= 1);
    }
}

/// Net count of critical chop cards saved (+1 each) and left exposed by `actor` (-1 each)
/// over one action from state `pre` to state `post`, as `truth` sees the chop cards.
pub fn critical_exposure_delta(actor: PlayerIndex, pre: &KnowledgeAwareGameState, post: &KnowledgeAwareGameState, truth: &LightweightPlayerPOV) -> (r: i32)
    requires
        pre.wf(),
        post.ts().wf(&pre.sd()),
        truth.wf(),
        actor < pre.sd().number_of_players,
    ensures
        r == sum_int_below(pre.n(), exposure_delta_of(pre.team(), pre.ts(), post.ts(), pre.sd().variant, *truth, actor as int, pre.n())),
{
    proof {
        pre.lemma_wf();
    }
    let pre_table = pre.table_state();
    let post_table = post.table_state();
    let static_data = pre.static_data();
    let team = pre.team_knowledge();
    let ghost v = static_data.variant;
    let ghost f = exposure_delta_of(*team, *pre_table, *post_table, v, *truth, actor as int, pre.n());
    let num_players = static_data.num_players();
    let pre_critical = critical_mask(pre_table, static_data);
    let post_critical = critical_mask(post_table, static_data);
    let save_available = pre_table.clue_tokens > 0;
    let playable_mask = pre_table.playable_cards(static_data);
    let actor_pov = LightweightPlayerPOV::new(actor, team.player(actor), team, pre_table, static_data);
    let actor_known_playable = count_known_playable(&actor_pov, playable_mask);
    let mut total: i32 = 0;
    let mut t: usize = 0;
    while t < num_players
        invariant
            pre_table.wf(static_data),
            post_table.wf(static_data),
            team.wf(),
            team.spec_num_players() == static_data.number_of_players,
            truth.wf(),
            num_players == static_data.number_of_players,
            num_players <= MAX_PLAYERS_IN_GAME,
            actor < num_players,
            v == static_data.variant,
            pre_critical == critical_mask_spec(pre_table, &v),
            post_critical == critical_mask_spec(post_table, &v),
            save_available == (pre_table.clue_tokens > 0),
            playable_mask == pre_table.playable_mask(&v),
            actor_known_playable == kp_of(*team, *pre_table, v, actor as int),
            f == exposure_delta_of(*team, *pre_table, *post_table, v, *truth, actor as int, num_players as int),
            t <= num_players,
            total == sum_int_below(t as int, f),
            -(t as int) <= total <= t,
        decreases num_players - t,
    {
        let mut delta: i32 = 0;
        if t != actor {
            let pov = LightweightPlayerPOV::new(t, team.player(t), team, pre_table, static_data);
            if let Some(chop_idx) = crate::engine::convention::hgroup::h_group_core::get_chop_index(t, &pov) {
                if let Some(chop_id) = truth.card_identity(chop_idx) {
                    if test_bit(pre_critical, chop_id) {
                        if post_table.is_touched(chop_idx) {
                            delta = 1;
                        } else if save_available && test_bit(post_critical, chop_id) {
                            let d: usize = if t > actor { t - actor } else { t + num_players - actor };
                            let mut found = false;
                            let mut j: usize = 1;
                            while j < d
                                invariant
                                    team.wf(),
                                    team.spec_num_players() == static_data.number_of_players,
                                    pre_table.wf(static_data),
                                    num_players == static_data.number_of_players,
                                    num_players <= MAX_PLAYERS_IN_GAME,
                                    actor < num_players,
                                    t < num_players,
                                    t != actor,
                                    v == static_data.variant,
                                    playable_mask == pre_table.playable_mask(&v),
                                    d == turn_distance(actor as int, t as int, num_players as int),
                                    1 <= j <= d,
                                    d < num_players,
                                    found == exists|i: int| 1 <= i < j
                                        && #[trigger] kp_of(*team, *pre_table, v, seat_after(actor as int, i, num_players as int)) < actor_known_playable,
                                decreases d - j,
                            {
                                let q: usize = if actor + j < num_players { actor + j } else { actor + j - num_players };
                                proof {
                                    team.lemma_wf();
                                }
                                let q_pov = LightweightPlayerPOV::new(q, team.player(q), team, pre_table, static_data);
                                let q_known = count_known_playable(&q_pov, playable_mask);
                                assert(q == seat_after(actor as int, j as int, num_players as int));
                                assert(q_known == kp_of(*team, *pre_table, v, seat_after(actor as int, j as int, num_players as int)));
                                if q_known < actor_known_playable {
                                    found = true;
                                }
                                j += 1;
                            }
                            if !found {
                                delta = -1;
                            }
                        }
                    }
                }
            }
        }
        assert(delta == f(t as int));
        assert(sum_int_below(t as int + 1, f) == sum_int_below(t as int, f) + f(t as int));
        total = total + delta;
        t += 1;
    }
    total
}

// ── Required efficiency ──────────────────────────────────────────────────────

/// Cards in the hands of players `0..n`.
pub open spec fn hand_cards_upto(ts: TableState, n: int) -> int
    decreases n,
{
    if n <= 0 {
        0
    } else {
        hand_cards_upto(ts, n - 1) + ts.hand(n - 1).len()
    }
}

pub proof fn lemma_hand_cards_mono(ts: TableState, m: int, n: int)
    requires
        0 <= m <= n,
    ensures
        hand_cards_upto(ts, m) <= hand_cards_upto(ts, n),
    decreases n - m,
{
    if m < n {
        lemma_hand_cards_mono(ts, m, n - 1);
    }
}

/// Deck positions held in the hands of players `0..n`.
pub open spec fn hand_positions_upto(ts: TableState, n: int) -> u64
    decreases n,
{
    if n <= 0 {
        0
    } else {
        hand_positions_upto(ts, n - 1) | crate::bits::positions_mask(ts.hand(n - 1))
    }
}

/// The efficiency the team still needs, as three integers: the score still to make (the
/// maximum minus the score counting unattributed plays), the spare turns (cards in the
/// deck and in hands beyond that, at least zero) and the plays still to set up (the score
/// to make minus the touched cards in hands, at least zero). The required efficiency is
/// zero when nothing is left to make, unbounded without spare turns, else the third over
/// the second.
pub fn efficiency_terms(state: &KnowledgeAwareGameState) -> (r: (i32, i32, i32))
    requires
        state.wf(),
        state.ts().score_spec() + state.phantoms() <= u8::MAX,
        hand_cards_upto(state.ts(), state.n()) <= i32::MAX - 512,
    ensures
        ({
            let ts = state.ts();
            let still = state.sd().variant.total_ids() - (ts.score_spec() + state.phantoms());
            let remaining = ts.deck_size + hand_cards_upto(ts, state.n());
            let live = popcount(ts.clue_touched_cards & hand_positions_upto(ts, state.n()));
            &&& r.0 == still
            &&& r.1 == if remaining - still > 0 { remaining - still } else { 0 }
            &&& r.2 == if still - live > 0 { still - live } else { 0 }
        }),
{
    proof {
        state.lemma_wf();
    }
    let table_state = state.table_state();
    let static_data = state.static_data();
    let num_players = static_data.num_players();
    let mut hand_cards: usize = 0;
    let mut positions: u64 = 0;
    let mut p: usize = 0;
    while p < num_players
        invariant
            table_state.wf(static_data),
            num_players == static_data.number_of_players,
            p <= num_players,
            hand_cards == hand_cards_upto(*table_state, p as int),
            hand_cards_upto(*table_state, num_players as int) <= i32::MAX - 512,
            positions == hand_positions_upto(*table_state, p as int),
        decreases num_players - p,
    {
        proof {
            lemma_hand_cards_mono(*table_state, p + 1, num_players as int);
        }
        let hand = &table_state.hands[p];
        hand_cards = hand_cards + hand.len();
        let mut bits: u64 = 0;
        let mut k: usize = 0;
        while k < hand.len()
            invariant
                table_state.wf(static_data),
                p < num_players,
                num_players == static_data.number_of_players,
                hand@ == table_state.hand(p as int),
                k <= hand@.len(),
                bits == crate::bits::positions_mask(hand@.subrange(0, k as int)),
            decreases hand.len() - k,
        {
            proof {
                let t = hand@.subrange(0, k + 1);
                assert(t.drop_last() == hand@.subrange(0, k as int));
                assert(t.last() == hand@[k as int]);
            }
            if hand[k] < 64 {
                bits = bits | bit(hand[k]);
            }
            k += 1;
        }
        assert(hand@.subrange(0, hand@.len() as int) == hand@);
        positions = positions | bits;
        p += 1;
    }
    let max_score = static_data.variant.total_id_count() as i32;
    let score = state.score(&static_data.variant) as i32;
    let still_to_play = max_score - score;
    let remaining = table_state.deck_size as i32 + hand_cards as i32;
    let spare_turns = if remaining - still_to_play > 0 { remaining - still_to_play } else { 0 };
    let live_setups = count_possibilities(table_state.clue_touched_cards & positions) as i32;
    let needed = if still_to_play - live_setups > 0 { still_to_play - live_setups } else { 0 };
    (still_to_play, spare_turns, needed)
}

} // verus!
