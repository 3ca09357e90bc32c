//! When a game ends: once the draw pile is empty, every player has one more turn.
use vstd::prelude::*;

verus! {

/// The final-round counter after a turn and whether the game goes on. The counter is
/// `None` while the deck has cards; when a turn leaves the deck empty it starts at one
/// turn fewer than the players (the player who emptied it has had that turn), and each
/// later turn spends one until none is left.
pub open spec fn final_round_step(final_round: Option<usize>, deck_size: u8, num_players: usize) -> (Option<usize>, bool) {
    let started = if final_round is None && deck_size == 0 { Some((num_players - 1) as usize) } else { final_round };
    match started {
        None => (None, true),
        Some(n) => if n > 0 { (Some((n - 1) as usize), true) } else { (Some(0usize), false) },
    }
}

/// Advances the final-round counter after a turn, given the cards left in the deck;
/// returns the new counter and whether another turn is played.
pub fn after_turn(final_round: Option<usize>, deck_size: u8, num_players: usize) -> (r: (Option<usize>, bool))
    requires
        num_players >= 1,
    ensures
        r == final_round_step(final_round, deck_size, num_players),
{
    let started = match final_round {
        None => if deck_size == 0 { Some(num_players - 1) } else { None },
        Some(n) => Some(n),
    };
    match started {
        None => (None, true),
        Some(n) => if n > 0 { (Some(n - 1), true) } else { (Some(0), false) },
    }
}

/// The final-round counter after `k` turns played with an empty deck, from `final_round`.
pub open spec fn counter_after(final_round: Option<usize>, num_players: usize, k: nat) -> Option<usize>
    decreases k,
{
    if k == 0 {
        final_round
    } else {
        final_round_step(counter_after(final_round, num_players, (k - 1) as nat), 0, num_players).0
    }
}

/// Once the draw pile is empty, the game lasts one more turn per player, counting the
/// turn that emptied it: from an unstarted counter, the next `num_players - 1` turns go on
/// and the one after ends the game.
pub proof fn lemma_final_round_length(num_players: usize, k: nat)
    requires
        num_players >= 1,
    ensures
        k < num_players - 1 ==> final_round_step(counter_after(None, num_players, k), 0, num_players).1,
        k == num_players - 1 ==> !final_round_step(counter_after(None, num_players, k), 0, num_players).1,
        1 <= k <= num_players - 1 ==> counter_after(None, num_players, k) == Some((num_players - 1 - k) as usize),
    decreases k,
{
    if k > 0 {
        lemma_final_round_length(num_players, (k - 1) as nat);
    }
}

} // verus!
