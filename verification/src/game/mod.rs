//! Game mechanics: cards, clues, variant rules and the observable table state.
use vstd::prelude::*;

pub mod action;
pub mod card;
pub mod clue;
pub mod static_game_data;
pub mod table_state;
pub mod variant;

verus! {

/// Number of deck positions a game can use (deck positions index `u64` bitfields).
pub const MAX_CARDS_IN_DECK: usize = 60;

/// Most players a game can seat.
pub const MAX_PLAYERS_IN_GAME: usize = 6;

/// Cards in a hand that a touched-card list holds without spilling to the heap.
pub const MAX_HAND_SIZE: usize = 5;

/// Clue tokens in a full bank.
pub const MAX_CLUE_TOKEN_COUNT: u8 = 8;

/// Clue values tried per clue type (colors `0..suits`, ranks `1..=stacks_size`).
pub const MAX_CLUE_VALUES_PER_TYPE: u8 = 6;

/// Strikes that end the game.
pub const MAX_STRIKES: u8 = 3;

/// Seat of a player, `0` being the first to act.
pub type PlayerIndex = usize;

/// Position of a card in the hand, `0` being the newest slot.
pub type SlotIndex = u8;

} // verus!
