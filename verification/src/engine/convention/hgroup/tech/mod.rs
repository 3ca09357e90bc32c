//! The H-Group techniques, and what they share: reading the snapshot of the turn a clue
//! was given and enumerating the clues a player could give.
use vstd::prelude::*;
use crate::engine::convention::hgroup::h_group_core::{clue_action_wf, clues_for_player_with_focus, clues_with_focus, pairs_view};
use crate::engine::game_state_snapshot::GameStateSnapshot;
use crate::engine::knowledge::lightweight_player_pov::LightweightPlayerPOV;
use crate::game::action::{GameAction, GameActionView};
use crate::game::card::CardDeckIndex;
use crate::game::static_game_data::StaticGameData;
use crate::game::MAX_CARDS_IN_DECK;

pub mod blind_play;
pub mod clue_burn;
pub mod critical_save;
pub mod delayed_play_clue;
pub mod direct_play_clue;
pub mod discard_chop;
pub mod discard_known_trash;
pub mod five_save;
pub mod five_stall;
pub mod low_level_stall;
pub mod play_known_playable;
pub mod simple_finesse;
pub mod simple_prompt;
pub mod tempo_clue;
pub mod two_save;

verus! {

/// Snapshot `t` of `history`, when one was recorded.
pub open spec fn snapshot_at(history: Seq<GameStateSnapshot>, t: int) -> Option<GameStateSnapshot> {
    if 0 <= t < history.len() {
        Some(history[t])
    } else {
        None
    }
}

/// The turn before `turn` (turn `0` for the first).
pub open spec fn prev_turn(turn: usize) -> int {
    if turn == 0 {
        0
    } else {
        turn - 1
    }
}

/// Exec form of [`snapshot_at`].
pub fn snapshot_ref(history: &[GameStateSnapshot], t: usize) -> (r: Option<&GameStateSnapshot>)
    ensures
        match r {
            Some(s) => snapshot_at(history@, t as int) == Some(*s),
            None => snapshot_at(history@, t as int) is None,
        },
{
    if t < history.len() {
        Some(&history[t])
    } else {
        None
    }
}

/// An observed clue names a seated receiver and deck positions.
pub open spec fn clue_args_wf(receiver: usize, touched: Seq<CardDeckIndex>, sd: &StaticGameData) -> bool {
    &&& receiver < sd.number_of_players
    &&& forall|k: int| 0 <= k < touched.len() ==> #[trigger] touched[k] < MAX_CARDS_IN_DECK
}

/// Clues `pov` can give to players `0..n` other than the player on turn, each with its
/// receiver and focus, in player order.
pub open spec fn candidate_clues(pov: LightweightPlayerPOV, n: int) -> Seq<(usize, GameActionView, u8)>
    decreases n,
{
    if n <= 0 {
        Seq::empty()
    } else if n - 1 != pov.ts().active_player_index {
        candidate_clues(pov, n - 1) + clues_with_focus(pov, n - 1).map_values(
            |x: (GameActionView, u8)| ((n - 1) as usize, x.0, x.1),
        )
    } else {
        candidate_clues(pov, n - 1)
    }
}

/// The actions of the candidates whose receiver and focus satisfy `keep`, in order.
pub open spec fn select_clues(s: Seq<(usize, GameActionView, u8)>, keep: spec_fn(usize, u8) -> bool) -> Seq<GameActionView>
    decreases s.len(),
{
    if s.len() == 0 {
        Seq::empty()
    } else {
        let prev = select_clues(s.drop_last(), keep);
        if keep(s.last().0, s.last().2) {
            prev.push(s.last().1)
        } else {
            prev
        }
    }
}

/// Views of receiver, action and focus triples.
pub open spec fn triples_view(s: Seq<(usize, GameAction, CardDeckIndex)>) -> Seq<(usize, GameActionView, u8)> {
    s.map_values(|x: (usize, GameAction, CardDeckIndex)| (x.0, x.1@, x.2))
}

/// Every clue the player on turn could give, from `pov`, with its receiver and focus.
pub fn clue_candidates(pov: &LightweightPlayerPOV) -> (r: Vec<(usize, GameAction, CardDeckIndex)>)
    requires
        pov.wf(),
    ensures
        triples_view(r@) == candidate_clues(*pov, pov.sd().number_of_players as int),
        forall|k: int|
            0 <= k < r@.len() ==> (#[trigger] r@[k]).0 < pov.sd().number_of_players && r@[k].2 < MAX_CARDS_IN_DECK
                && clue_action_wf(r@[k].1@, pov.sd().number_of_players as int),
{
    proof {
        pov.lemma_wf();
    }
    let active = pov.active_player_index();
    let num_players = pov.static_data().num_players();
    let mut out: Vec<(usize, GameAction, CardDeckIndex)> = Vec::new();
    let mut target: usize = 0;
    assert(triples_view(out@) =~= candidate_clues(*pov, 0));
    while target < num_players
        invariant
            pov.wf(),
            num_players == pov.sd().number_of_players,
            active == pov.ts().active_player_index,
            target <= num_players,
            triples_view(out@) == candidate_clues(*pov, target as int),
            forall|k: int|
                0 <= k < out@.len() ==> (#[trigger] out@[k]).0 < num_players && out@[k].2 < MAX_CARDS_IN_DECK
                    && clue_action_wf(out@[k].1@, num_players as int),
        decreases num_players - target,
    {
        if target != active {
            let clues = clues_for_player_with_focus(target, pov);
            let ghost base = triples_view(out@);
            let ghost cs = clues_with_focus(*pov, target as int).map_values(
                |x: (GameActionView, u8)| (target, x.0, x.1),
            );
            let mut k: usize = 0;
            assert(pairs_view(clues@).len() == clues@.len());
            assert(triples_view(out@) =~= base + cs.subrange(0, 0));
            while k < clues.len()
                invariant
                    k <= clues@.len(),
                    target < num_players,
                    pairs_view(clues@) == clues_with_focus(*pov, target as int),
                    cs == clues_with_focus(*pov, target as int).map_values(|x: (GameActionView, u8)| (target, x.0, x.1)),
                    cs.len() == clues@.len(),
                    triples_view(out@) == base + cs.subrange(0, k as int),
                    forall|j: int| 0 <= j < clues@.len() ==> (#[trigger] clues@[j]).1 < MAX_CARDS_IN_DECK && clue_action_wf(clues@[j].0@, num_players as int),
                    forall|j: int|
                        0 <= j < out@.len() ==> (#[trigger] out@[j]).0 < num_players && out@[j].2 < MAX_CARDS_IN_DECK
                            && clue_action_wf(out@[j].1@, num_players as int),
                decreases clues.len() - k,
            {
                let action = clues[k].0.duplicate();
                let f = clues[k].1;
                let ghost before = out@;
                proof {
                    assert(pairs_view(clues@)[k as int] == (clues@[k as int].0@, clues@[k as int].1));
                    assert((target, action@, f) == cs[k as int]);
                }
                out.push((target, action, f));
                assert(triples_view(out@) =~= triples_view(before).push(cs[k as int]));
                assert(triples_view(out@) =~= base + cs.subrange(0, k + 1));
                k += 1;
            }
            assert(cs.subrange(0, clues@.len() as int) =~= cs);
        }
        target += 1;
    }
    out
}


/// The actions of the candidates whose flag is set, in order.
pub open spec fn select_flagged(s: Seq<(usize, GameActionView, u8)>, flags: Seq<bool>) -> Seq<GameActionView>
    decreases s.len(),
{
    if s.len() == 0 {
        Seq::empty()
    } else {
        let prev = select_flagged(s.drop_last(), flags.drop_last());
        if flags.last() {
            prev.push(s.last().1)
        } else {
            prev
        }
    }
}

/// Every selected clue is the action of a candidate whose receiver and focus `keep` accepts.
pub proof fn lemma_select_clues_member(s: Seq<(usize, GameActionView, u8)>, keep: spec_fn(usize, u8) -> bool, k: int)
    requires
        0 <= k < select_clues(s, keep).len(),
    ensures
        exists|j: int| 0 <= j < s.len() && (#[trigger] s[j]).1 == select_clues(s, keep)[k] && keep(s[j].0, s[j].2),
    decreases s.len(),
{
    let t = s.drop_last();
    let prev = select_clues(t, keep);
    if keep(s.last().0, s.last().2) && k == prev.len() {
        assert(s[s.len() - 1].1 == select_clues(s, keep)[k]);
    } else {
        lemma_select_clues_member(t, keep, k);
        let j = choose|j: int| 0 <= j < t.len() && (#[trigger] t[j]).1 == select_clues(t, keep)[k] && keep(t[j].0, t[j].2);
        assert(s[j] == t[j]);
    }
}

/// Flags computed by `keep` select what `keep` selects.
pub proof fn lemma_select_flagged(s: Seq<(usize, GameActionView, u8)>, flags: Seq<bool>, keep: spec_fn(usize, u8) -> bool)
    requires
        flags.len() == s.len(),
        forall|j: int| 0 <= j < s.len() ==> flags[j] == keep(#[trigger] s[j].0, s[j].2),
    ensures
        select_flagged(s, flags) == select_clues(s, keep),
    decreases s.len(),
{
    if s.len() > 0 {
        let s2 = s.drop_last();
        let f2 = flags.drop_last();
        assert forall|j: int| 0 <= j < s2.len() implies f2[j] == keep(#[trigger] s2[j].0, s2[j].2) by {
            assert(s2[j] == s[j]);
        }
        lemma_select_flagged(s2, f2, keep);
        assert(flags.last() == keep(s[s.len() - 1].0, s[s.len() - 1].2));
    }
}

/// The actions of the candidates whose flag is set, in order.
pub fn select_actions(cands: &Vec<(usize, GameAction, CardDeckIndex)>, flags: &Vec<bool>) -> (r: Vec<GameAction>)
    requires
        flags@.len() == cands@.len(),
    ensures
        r@.map_values(|a: GameAction| a@) == select_flagged(triples_view(cands@), flags@),
{
    let mut out: Vec<GameAction> = Vec::new();
    let mut k: usize = 0;
    assert(out@.map_values(|a: GameAction| a@) =~= select_flagged(triples_view(cands@).subrange(0, 0), flags@.subrange(0, 0)));
    while k < cands.len()
        invariant
            flags@.len() == cands@.len(),
            k <= cands@.len(),
            out@.map_values(|a: GameAction| a@) == select_flagged(triples_view(cands@).subrange(0, k as int), flags@.subrange(0, k as int)),
        decreases cands.len() - k,
    {
        let ghost before = out@;
        proof {
            let t = triples_view(cands@).subrange(0, k + 1);
            assert(t.drop_last() =~= triples_view(cands@).subrange(0, k as int));
            assert(flags@.subrange(0, k + 1).drop_last() =~= flags@.subrange(0, k as int));
            assert(t.last() == (cands@[k as int].0, cands@[k as int].1@, cands@[k as int].2));
        }
        if flags[k] {
            out.push(cands[k].1.duplicate());
            assert(out@.map_values(|a: GameAction| a@) =~= before.map_values(|a: GameAction| a@).push(cands@[k as int].1@));
        }
        k += 1;
    }
    assert(triples_view(cands@).subrange(0, cands@.len() as int) =~= triples_view(cands@));
    assert(flags@.subrange(0, cands@.len() as int) =~= flags@);
    out
}


/// The first player among `p..n` satisfying `pred`.
pub open spec fn first_player(n: int, p: int, pred: spec_fn(int) -> bool) -> Option<int>
    decreases n - p,
{
    if p >= n {
        None
    } else if pred(p) {
        Some(p)
    } else {
        first_player(n, p + 1, pred)
    }
}

/// The first player from `p` on satisfying `pred` comes before `n` and satisfies it.
pub proof fn lemma_first_player(n: int, p: int, pred: spec_fn(int) -> bool)
    ensures
        first_player(n, p, pred) matches Some(q) ==> p <= q < n && pred(q),
    decreases n - p,
{
    if p < n && !pred(p) {
        lemma_first_player(n, p + 1, pred);
    }
}

/// The turn by which every player has acted once after the clue of `turn`.
pub open spec fn round_deadline(turn: usize, n: int) -> usize {
    if turn + n <= usize::MAX {
        (turn + n) as usize
    } else {
        usize::MAX
    }
}

/// Exec form of [`round_deadline`].
pub fn round_deadline_of(turn: usize, n: usize) -> (r: usize)
    ensures
        r == round_deadline(turn, n as int),
{
    if turn <= usize::MAX - n {
        turn + n
    } else {
        usize::MAX
    }
}

} // verus!
