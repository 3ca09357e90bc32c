//! Burn a clue token on cards already touched.
use vstd::prelude::*;
use crate::engine::convention::hgroup::h_group_core::touched_cards_for_clue;
use crate::engine::convention::hgroup::h_group_core::known_in_mask;
use crate::engine::convention::hgroup::tech::{clue_args_wf, prev_turn, snapshot_at, snapshot_ref};
use crate::engine::game_state_snapshot::{history_wf, GameStateSnapshot};
use crate::engine::knowledge::knowledge_update::{hyp_empty, Hypothesis};
use crate::engine::knowledge::lightweight_player_pov::LightweightPlayerPOV;
use crate::game::action::{GameAction, GameActionView};
use crate::game::card::CardDeckIndex;
use crate::game::clue::{Clue, ClueType};
use crate::game::{PlayerIndex, MAX_CARDS_IN_DECK, MAX_CLUE_VALUES_PER_TYPE, MAX_PLAYERS_IN_GAME};
use crate::game::table_state::TableState;
use crate::engine::knowledge::team_knowledge::TeamKnowledge;
use crate::bits::{in_mask, test_bit};

verus! {

/// A clue whose every touched card is already touched: it conveys nothing new and only
/// spends a token. A low-priority fallback.
pub struct ClueBurn;

/// Some seated player of `0..n` holds card `idx` and carries a signal on it.
pub open spec fn signal_touched(team: TeamKnowledge, n: int, idx: int) -> bool {
    exists|p: int| 0 <= p < n && #[trigger] in_mask(team.view_of(p).own_hand, idx) && team.view_of(p).signals[idx].len() > 0
}

/// Card `idx` is touched: by a clue, or by a signal on it in its holder's knowledge.
pub open spec fn already_touched(ts: TableState, team: TeamKnowledge, n: int, idx: int) -> bool {
    ts.touched(idx) || signal_touched(team, n, idx)
}

/// Exec form of [`signal_touched`].
fn is_signal_touched(team: &TeamKnowledge, num_players: usize, idx: CardDeckIndex) -> (r: bool)
    requires
        team.wf(),
        num_players <= MAX_PLAYERS_IN_GAME,
        idx < MAX_CARDS_IN_DECK,
    ensures
        r == signal_touched(*team, num_players as int, idx as int),
{
    let mut p: usize = 0;
    while p < num_players
        invariant
            team.wf(),
            num_players <= MAX_PLAYERS_IN_GAME,
            idx < MAX_CARDS_IN_DECK,
            p <= num_players,
            forall|q: int| 0 <= q < p ==> !(#[trigger] in_mask(team.view_of(q).own_hand, idx as int) && team.view_of(q).signals[idx as int].len() > 0),
        decreases num_players - p,
    {
        proof {
            team.lemma_wf();
        }
        let k = team.player(p);
        if test_bit(k.own_hand, idx) && k.signals[idx as usize].as_slice().len() > 0 {
            assert(in_mask(team.view_of(p as int).own_hand, idx as int) && team.view_of(p as int).signals[idx as int].len() > 0);
            return true;
        }
        p += 1;
    }
    false
}

/// The burn clue of type `t` and value `v` to `target`, when it touches only already
/// touched cards (and at least one) that `pov` knows.
pub open spec fn burn_option(pov: LightweightPlayerPOV, target: int, t: ClueType, v: int) -> Option<GameActionView> {
    let touched = known_in_mask(pov, pov.ts().hand(target), pov.v().clue_mask(t, v));
    if touched.len() > 0 && forall|k: int| 0 <= k < touched.len() ==> #[trigger] already_touched(pov.ts(), pov.team(), pov.sd().number_of_players as int, touched[k] as int) {
        Some(
            GameActionView::Clue {
                player_index: target as usize,
                touched,
                clue: Clue { clue_type: t, clue_value: v as u8 },
                turn: pov.ts().current_turn,
            },
        )
    } else {
        None
    }
}

/// Burn clues of type `t`, values `0..nv`.
pub open spec fn burns_for_type(pov: LightweightPlayerPOV, target: int, t: ClueType, nv: int) -> Seq<GameActionView>
    decreases nv,
{
    if nv <= 0 {
        Seq::empty()
    } else {
        match burn_option(pov, target, t, nv - 1) {
            Some(a) => burns_for_type(pov, target, t, nv - 1).push(a),
            None => burns_for_type(pov, target, t, nv - 1),
        }
    }
}

/// Burn clues to `target` of the first `nt` clue types.
pub open spec fn burns_for(pov: LightweightPlayerPOV, target: int, nt: int) -> Seq<GameActionView>
    decreases nt,
{
    if nt <= 0 {
        Seq::empty()
    } else {
        burns_for(pov, target, nt - 1) + burns_for_type(pov, target, pov.v().clue_types@[nt - 1], MAX_CLUE_VALUES_PER_TYPE as int)
    }
}

/// Burn clues to the players `0..n` other than the player on turn.
pub open spec fn burn_clues(pov: LightweightPlayerPOV, n: int) -> Seq<GameActionView>
    decreases n,
{
    if n <= 0 {
        Seq::empty()
    } else if n - 1 != pov.ts().active_player_index {
        burn_clues(pov, n - 1) + burns_for(pov, n - 1, pov.v().clue_types@.len() as int)
    } else {
        burn_clues(pov, n - 1)
    }
}

/// Every card the clue touched was touched before it (by a clue, or by a signal in the
/// holder's knowledge, among `n` players), as recorded before the clue.
pub open spec fn burn_matches(touched: Seq<u8>, turn: usize, history: Seq<GameStateSnapshot>, n: int) -> bool {
    &&& touched.len() > 0
    &&& snapshot_at(history, prev_turn(turn)) matches Some(snap)
    &&& forall|k: int| 0 <= k < touched.len() ==> #[trigger] already_touched(snap.table_state, snap.team_knowledge, n, touched[k] as int)
}

impl ClueBurn {
    /// Every clue of the player on turn that touches only already-touched cards.
    pub fn clue_game_actions(&self, pov: &LightweightPlayerPOV) -> (r: Vec<GameAction>)
        requires
            pov.wf(),
        ensures
            r@.map_values(|a: GameAction| a@) == burn_clues(*pov, pov.sd().number_of_players as int),
    {
        proof {
            pov.lemma_wf();
        }
        let active = pov.active_player_index();
        let num_players = pov.static_data().num_players();
        let types = &pov.static_data().variant.clue_types;
        let mut result: Vec<GameAction> = Vec::new();
        let mut target: usize = 0;
        assert(result@.map_values(|a: GameAction| a@) =~= burn_clues(*pov, 0));
        while target < num_players
            invariant
                pov.wf(),
                active == pov.ts().active_player_index,
                num_players == pov.sd().number_of_players,
                *types == pov.v().clue_types,
                target <= num_players,
                result@.map_values(|a: GameAction| a@) == burn_clues(*pov, target as int),
            decreases num_players - target,
        {
            if target != active {
                let ghost base = result@.map_values(|a: GameAction| a@);
                let mut ti: usize = 0;
                assert(result@.map_values(|a: GameAction| a@) =~= base + burns_for(*pov, target as int, 0));
                while ti < types.len()
                    invariant
                        pov.wf(),
                        *types == pov.v().clue_types,
                        target < num_players,
                        num_players == pov.sd().number_of_players,
                        ti <= types@.len(),
                        result@.map_values(|a: GameAction| a@) == base + burns_for(*pov, target as int, ti as int),
                    decreases types.len() - ti,
                {
                    let t = types[ti];
                    let ghost base2 = result@.map_values(|a: GameAction| a@);
                    let mut v: u8 = 0;
                    assert(result@.map_values(|a: GameAction| a@) =~= base2 + burns_for_type(*pov, target as int, t, 0));
                    while v < MAX_CLUE_VALUES_PER_TYPE
                        invariant
                            pov.wf(),
                            target < num_players,
                            num_players == pov.sd().number_of_players,
                            v <= MAX_CLUE_VALUES_PER_TYPE,
                            result@.map_values(|a: GameAction| a@) == base2 + burns_for_type(*pov, target as int, t, v as int),
                        decreases MAX_CLUE_VALUES_PER_TYPE - v,
                    {
                        let ghost before = result@;
                        let clue = Clue { clue_type: t, clue_value: v };
                        let touched = touched_cards_for_clue(target, &clue, pov);
                        let ts = touched.as_slice();
                        let mut all_touched = true;
                        let mut k: usize = 0;
                        proof {
                            pov.lemma_wf();
                        }
                        while k < ts.len()
                            invariant
                                pov.wf(),
                                k <= ts@.len(),
                                ts@ == touched@,
                                forall|j: int| 0 <= j < ts@.len() ==> #[trigger] ts@[j] < MAX_CARDS_IN_DECK,
                                all_touched == forall|j: int| 0 <= j < k ==> #[trigger] already_touched(pov.ts(), pov.team(), pov.sd().number_of_players as int, ts@[j] as int),
                            decreases ts.len() - k,
                        {
                            proof {
                                pov.lemma_wf();
                            }
                            let idx = ts[k];
                            let touched_now = pov.is_touched(idx) || is_signal_touched(pov.team_knowledge(), pov.static_data().num_players(), idx);
                            assert(touched_now == already_touched(pov.ts(), pov.team(), pov.sd().number_of_players as int, ts@[k as int] as int));
                            if !touched_now {
                                all_touched = false;
                            }
                            assert(all_touched == forall|j: int| 0 <= j < k + 1 ==> #[trigger] already_touched(pov.ts(), pov.team(), pov.sd().number_of_players as int, ts@[j] as int));
                            k += 1;
                        }
                        assert(all_touched == forall|j: int| 0 <= j < touched@.len() ==> #[trigger] already_touched(pov.ts(), pov.team(), pov.sd().number_of_players as int, touched@[j] as int));
                        if ts.len() > 0 && all_touched {
                            let action = GameAction::Clue {
                                player_index: target,
                                touched_card_deck_indexes: touched,
                                clue,
                                turn: pov.table_state().current_turn,
                            };
                            assert(burn_option(*pov, target as int, t, v as int) == Some(action@));
                            result.push(action);
                            assert(result@.map_values(|a: GameAction| a@) =~= before.map_values(|a: GameAction| a@).push(action@));
                        } else {
                            assert(burn_option(*pov, target as int, t, v as int) is None);
                        }
                        assert(result@.map_values(|a: GameAction| a@) =~= base2 + burns_for_type(*pov, target as int, t, v + 1));
                        v += 1;
                    }
                    assert(result@.map_values(|a: GameAction| a@) =~= base + burns_for(*pov, target as int, ti + 1));
                    ti += 1;
                }
            }
            assert(result@.map_values(|a: GameAction| a@) =~= burn_clues(*pov, target + 1));
            target += 1;
        }
        result
    }

    /// Every touched card was touched before the clue, by a clue or by a signal.
    pub fn matches_clue(
        &self,
        _player_index: PlayerIndex,
        touched: &[CardDeckIndex],
        _clue: &Clue,
        turn: usize,
        history: &[GameStateSnapshot],
        observer_pov: &LightweightPlayerPOV,
    ) -> (r: bool)
        requires
            observer_pov.wf(),
            history_wf(history@, &observer_pov.sd()),
            forall|k: int| 0 <= k < touched@.len() ==> #[trigger] touched@[k] < MAX_CARDS_IN_DECK,
        ensures
            r == burn_matches(touched@, turn, history@, observer_pov.sd().number_of_players as int),
    {
        proof {
            observer_pov.lemma_wf();
        }
        if touched.len() == 0 {
            return false;
        }
        let n = observer_pov.static_data().num_players();
        let t = if turn == 0 { 0 } else { turn - 1 };
        let snap = match snapshot_ref(history, t) {
            Some(s) => s,
            None => return false,
        };
        assert(snap.wf(&observer_pov.sd()));
        let mut k: usize = 0;
        while k < touched.len()
            invariant
                k <= touched@.len(),
                n == observer_pov.sd().number_of_players,
                n <= MAX_PLAYERS_IN_GAME,
                snap.team_knowledge.wf(),
                forall|j: int| 0 <= j < touched@.len() ==> #[trigger] touched@[j] < MAX_CARDS_IN_DECK,
                forall|j: int| 0 <= j < k ==> #[trigger] already_touched(snap.table_state, snap.team_knowledge, n as int, touched@[j] as int),
                snapshot_at(history@, prev_turn(turn)) == Some(*snap),
            decreases touched.len() - k,
        {
            if !snap.table_state.is_touched(touched[k]) && !is_signal_touched(&snap.team_knowledge, n, touched[k]) {
                assert(!already_touched(snap.table_state, snap.team_knowledge, n as int, touched@[k as int] as int));
                proof {
                    let s2 = snapshot_at(history@, prev_turn(turn))->0;
                    assert(s2 == *snap);
                    assert(!already_touched(s2.table_state, s2.team_knowledge, n as int, touched@[k as int] as int));
                }
                return false;
            }
            k += 1;
        }
        true
    }

    /// A burn teaches nothing.
    pub fn clue_knowledge_updates(
        &self,
        _player_index: PlayerIndex,
        _touched: &[CardDeckIndex],
        _clue: &Clue,
        _turn: usize,
        _history: &[GameStateSnapshot],
        _observer_pov: &LightweightPlayerPOV,
    ) -> (r: Hypothesis)
        ensures
            r@ == hyp_empty(),
    {
        Hypothesis::empty()
    }
}

} // verus!
