//! Save a critical card on chop, by color or by rank.
use vstd::prelude::*;
use crate::bits::{group_bits, in_mask, bit, test_bit, mask_of, lemma_mask_of_eq};
use crate::engine::convention::hgroup::h_group_core::{chop, get_chop_index, is_oldest_untouched, known_in_mask, lemma_last_untouched_is_oldest, touched_cards_for_clue};
use crate::engine::convention::hgroup::tech::{clue_args_wf, snapshot_at, snapshot_ref};
use crate::engine::game_state_snapshot::{history_wf, GameStateSnapshot};
use crate::engine::knowledge::knowledge_update::{hyp_empty, hyp_unconditional, updates_wf, Hypothesis, HypothesisView, KnowledgeUpdate};
use crate::engine::knowledge::lightweight_player_pov::LightweightPlayerPOV;
use crate::engine::convention::hgroup::h_group_tech::SaveClueTech;
use crate::game::action::{GameAction, GameActionView};
use crate::game::card::CardDeckIndex;
use crate::game::clue::{Clue, ClueType};
use crate::game::table_state::slice_contains;
use crate::game::{PlayerIndex, MAX_CARDS_IN_DECK};

verus! {

broadcast use group_bits;

/// The chop of `target`, as `pov` sees it, is a critical card that is not the last of its
/// suit and not playable yet.
pub open spec fn critical_saveable(pov: LightweightPlayerPOV, target: int) -> bool {
    &&& chop(pov, target) matches Some(c)
    &&& pov.card_id(c as int) matches Some(id)
    &&& id < pov.v().total_ids()
    &&& pov.critical_id(id as int)
    &&& id % 5 != 4
    &&& pov.away(id as int) matches Some(a) && a > 0
}

/// `pov` knows card `c` to be an identity, not a 5, with exactly one copy left undiscarded,
/// whose stack has not reached the rank below it yet.
pub open spec fn known_critical_unplayable(pov: LightweightPlayerPOV, c: u8) -> bool {
    pov.card_id(c as int) matches Some(id) && {
        &&& id < pov.v().total_ids()
        &&& id % 5 != 4
        &&& pov.ts().discarded(id as int) + 1 == pov.v().copies(id as int)
        &&& pov.ts().stack(id as int / 5) < id as int % 5
    }
}

/// A critical save is owed to `target` exactly when the oldest card of its hand no clue
/// touched is known to be critical, not a 5 and not playable yet.
pub proof fn lemma_critical_saveable_iff(pov: LightweightPlayerPOV, target: int)
    ensures
        critical_saveable(pov, target) <==> exists|c: u8|
            #[trigger] is_oldest_untouched(pov.ts(), pov.ts().hand(target), c) && known_critical_unplayable(pov, c),
{
    let hand = pov.ts().hand(target);
    lemma_last_untouched_is_oldest(pov.ts(), hand);
    if let Some(c) = chop(pov, target) {
        assert(is_oldest_untouched(pov.ts(), hand, c));
    }
}

/// The value of a save clue of type `t` for identity `id`: its suit or its rank.
pub open spec fn save_clue_value(t: ClueType, id: int) -> int {
    match t {
        ClueType::Color => id / 5,
        ClueType::Rank => id % 5 + 1,
    }
}

/// The save clue of type `t` to `target` on the identity of its chop.
pub open spec fn save_clue_on_chop(pov: LightweightPlayerPOV, t: ClueType, target: int) -> GameActionView {
    let id = pov.card_id(chop(pov, target)->0 as int)->0;
    let clue = Clue { clue_type: t, clue_value: save_clue_value(t, id as int) as u8 };
    GameActionView::Clue {
        player_index: target as usize,
        touched: known_in_mask(pov, pov.ts().hand(target), pov.v().clue_mask(t, clue.clue_value as int)),
        clue,
        turn: pov.ts().current_turn,
    }
}

/// Save clues of type `t` to the players `0..n` other than the player on turn.
pub open spec fn critical_save_clues(pov: LightweightPlayerPOV, t: ClueType, n: int) -> Seq<GameActionView>
    decreases n,
{
    if n <= 0 {
        Seq::empty()
    } else if n - 1 != pov.ts().active_player_index && critical_saveable(pov, n - 1) {
        critical_save_clues(pov, t, n - 1).push(save_clue_on_chop(pov, t, n - 1))
    } else {
        critical_save_clues(pov, t, n - 1)
    }
}

/// The clue is of type `t`, and touched the receiver's chop while the giver saw it critical.
pub open spec fn critical_save_matches(t: ClueType, receiver: usize, touched: Seq<u8>, clue: Clue, turn: usize, history: Seq<GameStateSnapshot>, obs: LightweightPlayerPOV) -> bool {
    &&& clue.clue_type == t
    &&& snapshot_at(history, turn as int) matches Some(snap)
    &&& critical_saveable(snap.pov(snap.table_state.active_player_index, &obs.sd()), receiver as int)
    &&& chop(snap.pov(snap.table_state.active_player_index, &obs.sd()), receiver as int) matches Some(c)
    &&& touched.contains(c)
}

/// Critical identities the clue touches that are not the last of their suit, from `pov`.
pub open spec fn critical_touched_mask(pov: LightweightPlayerPOV, clue: Clue) -> u64 {
    mask_of(pov.v().total_ids(), |id: int| id % 5 != 4 && pov.v().clue_touches(clue.clue_type, clue.clue_value as int, id) && pov.critical_id(id))
}

/// A critical save narrows the chop to exactly the identities of the variant, other than
/// 5s, that the clue touches and of which exactly one copy is left undiscarded.
pub proof fn lemma_critical_touched_mask(pov: LightweightPlayerPOV, clue: Clue, i: int)
    requires
        pov.wf(),
    ensures
        in_mask(critical_touched_mask(pov, clue), i) <==> {
            &&& 0 <= i < pov.v().total_ids()
            &&& i % 5 != 4
            &&& pov.v().clue_touches(clue.clue_type, clue.clue_value as int, i)
            &&& pov.ts().discarded(i) + 1 == pov.v().copies(i)
        },
{
    pov.lemma_wf();
    crate::bits::lemma_mask_of(
        pov.v().total_ids(),
        |id: int| id % 5 != 4 && pov.v().clue_touches(clue.clue_type, clue.clue_value as int, id) && pov.critical_id(id),
    );
}

/// The receiver narrows a touched chop to the critical identities the clue touches.
pub open spec fn critical_save_updates(receiver: usize, touched: Seq<u8>, clue: Clue, turn: usize, history: Seq<GameStateSnapshot>, obs: LightweightPlayerPOV) -> HypothesisView {
    let snap = history[turn as int];
    let gp = snap.pov(snap.table_state.active_player_index, &obs.sd());
    match chop(gp, receiver as int) {
        Some(c) => if touched.contains(c) && critical_touched_mask(gp, clue) != 0 {
            hyp_unconditional(seq![KnowledgeUpdate::NarrowPossibilities { card_deck_index: c, mask: critical_touched_mask(gp, clue) }])
        } else {
            hyp_empty()
        },
        None => hyp_empty(),
    }
}

/// Exec form of [`critical_saveable`].
pub fn can_be_critical_saved(target_player_index: PlayerIndex, observer_pov: &LightweightPlayerPOV) -> (r: bool)
    requires
        observer_pov.wf(),
        target_player_index < observer_pov.sd().number_of_players,
    ensures
        r == critical_saveable(*observer_pov, target_player_index as int),
        r <==> exists|c: u8|
            #[trigger] is_oldest_untouched(observer_pov.ts(), observer_pov.ts().hand(target_player_index as int), c)
                && known_critical_unplayable(*observer_pov, c),
{
    proof {
        observer_pov.lemma_wf();
        lemma_critical_saveable_iff(*observer_pov, target_player_index as int);
    }
    let chop_card = match get_chop_index(target_player_index, observer_pov) {
        Some(c) => c,
        None => return false,
    };
    let card_id = match observer_pov.card_identity(chop_card) {
        Some(id) => id,
        None => return false,
    };
    if card_id >= observer_pov.static_data().variant.total_id_count() {
        return false;
    }
    if !observer_pov.is_critical_card_id(card_id) {
        return false;
    }
    if observer_pov.static_data().variant.is_stack_ending_card(card_id) {
        return false;
    }
    match observer_pov.away_value(card_id) {
        Some(away_value) => away_value > 0,
        None => false,
    }
}

/// Save clues of type `clue_type` from the player on turn.
pub fn critical_save_actions(active_player_pov: &LightweightPlayerPOV, clue_type: ClueType) -> (r: Vec<GameAction>)
    requires
        active_player_pov.wf(),
    ensures
        r@.map_values(|a: GameAction| a@) == critical_save_clues(*active_player_pov, clue_type, active_player_pov.sd().number_of_players as int),
{
    proof {
        active_player_pov.lemma_wf();
    }
    let active = active_player_pov.active_player_index();
    let num_players = active_player_pov.static_data().num_players();
    let mut out: Vec<GameAction> = Vec::new();
    let mut target: usize = 0;
    assert(out@.map_values(|a: GameAction| a@) =~= critical_save_clues(*active_player_pov, clue_type, 0));
    while target < num_players
        invariant
            active_player_pov.wf(),
            active == active_player_pov.ts().active_player_index,
            num_players == active_player_pov.sd().number_of_players,
            target <= num_players,
            out@.map_values(|a: GameAction| a@) == critical_save_clues(*active_player_pov, clue_type, target as int),
        decreases num_players - target,
    {
        let ghost before = out@;
        if target != active && can_be_critical_saved(target, active_player_pov) {
            let chop_idx = get_chop_index(target, active_player_pov).unwrap();
            let card_id = active_player_pov.card_identity(chop_idx).unwrap();
            let value = match clue_type {
                ClueType::Color => card_id / 5,
                ClueType::Rank => active_player_pov.static_data().variant.rank_of(card_id),
            };
            let clue = Clue { clue_type, clue_value: value };
            let touched = touched_cards_for_clue(target, &clue, active_player_pov);
            let action = GameAction::Clue {
                player_index: target,
                touched_card_deck_indexes: touched,
                clue,
                turn: active_player_pov.table_state().current_turn,
            };
            assert(action@ == save_clue_on_chop(*active_player_pov, clue_type, target as int));
            out.push(action);
            assert(out@.map_values(|a: GameAction| a@) =~= before.map_values(|a: GameAction| a@).push(save_clue_on_chop(*active_player_pov, clue_type, target as int)));
        }
        target += 1;
    }
    out
}

/// Exec form of [`critical_save_matches`].
pub fn critical_save_clue_matches(
    player_index: PlayerIndex,
    touched: &[CardDeckIndex],
    clue: &Clue,
    turn: usize,
    history: &[GameStateSnapshot],
    observer_pov: &LightweightPlayerPOV,
    clue_type: ClueType,
) -> (r: bool)
    requires
        observer_pov.wf(),
        history_wf(history@, &observer_pov.sd()),
        clue_args_wf(player_index, touched@, &observer_pov.sd()),
    ensures
        r == critical_save_matches(clue_type, player_index, touched@, *clue, turn, history@, *observer_pov),
{
    let same_type = match (clue.clue_type, clue_type) {
        (ClueType::Color, ClueType::Color) => true,
        (ClueType::Rank, ClueType::Rank) => true,
        _ => false,
    };
    if !same_type {
        return false;
    }
    let snap = match snapshot_ref(history, turn) {
        Some(s) => s,
        None => return false,
    };
    let giver = snap.table_state.active_player_index;
    let giver_pov = snap.player_pov(giver, observer_pov.static_data());
    if !can_be_critical_saved(player_index, &giver_pov) {
        return false;
    }
    match get_chop_index(player_index, &giver_pov) {
        Some(c) => slice_contains(touched, c),
        None => false,
    }
}

/// Exec form of [`critical_touched_mask`].
fn critical_ids_touched_by(pov: &LightweightPlayerPOV, clue: &Clue) -> (r: u64)
    requires
        pov.wf(),
    ensures
        r == critical_touched_mask(*pov, *clue),
        forall|i: int| #[trigger] in_mask(r, i) <==> {
            &&& 0 <= i < pov.v().total_ids()
            &&& i % 5 != 4
            &&& pov.v().clue_touches(clue.clue_type, clue.clue_value as int, i)
            &&& pov.ts().discarded(i) + 1 == pov.v().copies(i)
        },
{
    proof {
        pov.lemma_wf();
        assert forall|i: int| #[trigger] in_mask(critical_touched_mask(*pov, *clue), i) <==> {
            &&& 0 <= i < pov.v().total_ids()
            &&& i % 5 != 4
            &&& pov.v().clue_touches(clue.clue_type, clue.clue_value as int, i)
            &&& pov.ts().discarded(i) + 1 == pov.v().copies(i)
        } by {
            lemma_critical_touched_mask(*pov, *clue, i);
        }
    }
    let variant = &pov.static_data().variant;
    let total = variant.total_id_count();
    let clue_mask = variant.empathy_for_clue(clue);
    let mut mask: u64 = 0;
    let mut id: u8 = 0;
    assert(total <= 30);
    while id < total
        invariant
            pov.wf(),
            *variant == pov.v(),
            total == pov.v().total_ids(),
            total <= 30,
            id <= total,
            forall|i: int| #[trigger] in_mask(clue_mask, i) <==> pov.v().clue_touches(clue.clue_type, clue.clue_value as int, i),
            forall|i: int| 0 <= i < 64 ==> (#[trigger] in_mask(mask, i) <==> (i < id && i % 5 != 4
                && pov.v().clue_touches(clue.clue_type, clue.clue_value as int, i) && pov.critical_id(i))),
        decreases total - id,
    {
        if !variant.is_stack_ending_card(id) && test_bit(clue_mask, id) && pov.is_critical_card_id(id) {
            mask = mask | bit(id);
        }
        id += 1;
    }
    proof {
        lemma_mask_of_eq(mask, pov.v().total_ids(), |i: int| i % 5 != 4 && pov.v().clue_touches(clue.clue_type, clue.clue_value as int, i) && pov.critical_id(i));
    }
    mask
}

/// `u` narrows a card to identities, other than 5s, that `clue` touches and of which
/// exactly one copy is left undiscarded on the board `ts`.
pub open spec fn narrows_to_critical(u: KnowledgeUpdate, clue: Clue, ts: crate::game::table_state::TableState, v: crate::game::variant::Variant) -> bool {
    match u {
        KnowledgeUpdate::NarrowPossibilities { mask, .. } => forall|i: int| #[trigger] in_mask(mask, i) ==> {
            &&& 0 <= i < v.total_ids()
            &&& i % 5 != 4
            &&& v.clue_touches(clue.clue_type, clue.clue_value as int, i)
            &&& ts.discarded(i) + 1 == v.copies(i)
        },
        _ => false,
    }
}

/// Exec form of [`critical_save_updates`].
pub fn critical_save_knowledge_updates(
    receiver: PlayerIndex,
    touched_card_deck_indexes: &[CardDeckIndex],
    clue: &Clue,
    turn: usize,
    history: &[GameStateSnapshot],
    observer_pov: &LightweightPlayerPOV,
) -> (r: Hypothesis)
    requires
        observer_pov.wf(),
        history_wf(history@, &observer_pov.sd()),
        clue_args_wf(receiver, touched_card_deck_indexes@, &observer_pov.sd()),
        turn < history@.len(),
    ensures
        r@ == critical_save_updates(receiver, touched_card_deck_indexes@, *clue, turn, history@, *observer_pov),
        updates_wf(r@.immediate),
        forall|k: int| 0 <= k < r@.immediate.len() ==> #[trigger] narrows_to_critical(r@.immediate[k], *clue, history@[turn as int].table_state, observer_pov.v()),
{
    let snap = &history[turn];
    let giver = snap.table_state.active_player_index;
    let giver_pov = snap.player_pov(giver, observer_pov.static_data());
    let chop = match get_chop_index(receiver, &giver_pov) {
        Some(c) => c,
        None => return Hypothesis::empty(),
    };
    if !slice_contains(touched_card_deck_indexes, chop) {
        return Hypothesis::empty();
    }
    let mask = critical_ids_touched_by(&giver_pov, clue);
    if mask == 0 {
        return Hypothesis::empty();
    }
    let v = vec![KnowledgeUpdate::NarrowPossibilities { card_deck_index: chop, mask }];
    assert(v@ =~= seq![KnowledgeUpdate::NarrowPossibilities { card_deck_index: chop, mask }]);
    assert(narrows_to_critical(v@[0], *clue, history@[turn as int].table_state, observer_pov.v()));
    Hypothesis::unconditional(v)
}

/// Save a critical card on chop by cluing its color (suit).
pub struct ColorCriticalSave;

/// Save a critical card on chop by cluing its rank.
pub struct RankCriticalSave;

impl SaveClueTech for ColorCriticalSave {}

impl SaveClueTech for RankCriticalSave {}

impl ColorCriticalSave {
    /// Color saves of every critical chop the player on turn sees.
    pub fn clue_game_actions(&self, active_player_pov: &LightweightPlayerPOV) -> (r: Vec<GameAction>)
        requires
            active_player_pov.wf(),
        ensures
            r@.map_values(|a: GameAction| a@) == critical_save_clues(*active_player_pov, ClueType::Color, active_player_pov.sd().number_of_players as int),
    {
        critical_save_actions(active_player_pov, ClueType::Color)
    }

    pub fn matches_clue(
        &self,
        player_index: PlayerIndex,
        touched: &[CardDeckIndex],
        clue: &Clue,
        turn: usize,
        history: &[GameStateSnapshot],
        pov: &LightweightPlayerPOV,
    ) -> (r: bool)
        requires
            pov.wf(),
            history_wf(history@, &pov.sd()),
            clue_args_wf(player_index, touched@, &pov.sd()),
        ensures
            r == critical_save_matches(ClueType::Color, player_index, touched@, *clue, turn, history@, *pov),
    {
        critical_save_clue_matches(player_index, touched, clue, turn, history, pov, ClueType::Color)
    }

    pub fn clue_knowledge_updates(
        &self,
        player_index: PlayerIndex,
        touched: &[CardDeckIndex],
        clue: &Clue,
        turn: usize,
        history: &[GameStateSnapshot],
        player_pov: &LightweightPlayerPOV,
    ) -> (r: Hypothesis)
        requires
            player_pov.wf(),
            history_wf(history@, &player_pov.sd()),
            clue_args_wf(player_index, touched@, &player_pov.sd()),
            turn < history@.len(),
        ensures
            r@ == critical_save_updates(player_index, touched@, *clue, turn, history@, *player_pov),
            updates_wf(r@.immediate),
    {
        critical_save_knowledge_updates(player_index, touched, clue, turn, history, player_pov)
    }
}

impl RankCriticalSave {
    /// Rank saves of every critical chop the player on turn sees.
    pub fn clue_game_actions(&self, active_player_pov: &LightweightPlayerPOV) -> (r: Vec<GameAction>)
        requires
            active_player_pov.wf(),
        ensures
            r@.map_values(|a: GameAction| a@) == critical_save_clues(*active_player_pov, ClueType::Rank, active_player_pov.sd().number_of_players as int),
    {
        critical_save_actions(active_player_pov, ClueType::Rank)
    }

    pub fn matches_clue(
        &self,
        player_index: PlayerIndex,
        touched: &[CardDeckIndex],
        clue: &Clue,
        turn: usize,
        history: &[GameStateSnapshot],
        observer_pov: &LightweightPlayerPOV,
    ) -> (r: bool)
        requires
            observer_pov.wf(),
            history_wf(history@, &observer_pov.sd()),
            clue_args_wf(player_index, touched@, &observer_pov.sd()),
        ensures
            r == critical_save_matches(ClueType::Rank, player_index, touched@, *clue, turn, history@, *observer_pov),
    {
        critical_save_clue_matches(player_index, touched, clue, turn, history, observer_pov, ClueType::Rank)
    }

    pub fn clue_knowledge_updates(
        &self,
        player_index: PlayerIndex,
        touched: &[CardDeckIndex],
        clue: &Clue,
        turn: usize,
        history: &[GameStateSnapshot],
        observer_pov: &LightweightPlayerPOV,
    ) -> (r: Hypothesis)
        requires
            observer_pov.wf(),
            history_wf(history@, &observer_pov.sd()),
            clue_args_wf(player_index, touched@, &observer_pov.sd()),
            turn < history@.len(),
        ensures
            r@ == critical_save_updates(player_index, touched@, *clue, turn, history@, *observer_pov),
            updates_wf(r@.immediate),
    {
        critical_save_knowledge_updates(player_index, touched, clue, turn, history, observer_pov)
    }
}

} // verus!
