//! Clues.
use vstd::prelude::*;

verus! {

/// What a clue names: a suit (color) or a rank.
#[derive(Clone, Copy, Debug, PartialEq, Eq, Hash, Structural)]
pub enum ClueType {
    Color,
    Rank,
}

/// A clue: its type and value (a suit index for colors, a rank `1..=stacks_size` for ranks).
#[derive(Clone, Copy, Debug, PartialEq, Eq, Hash, Structural)]
pub struct Clue {
    pub clue_type: ClueType,
    pub clue_value: u8,
}

} // verus!
