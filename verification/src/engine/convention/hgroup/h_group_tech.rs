//! H-Group interpretation priorities and tech families.
use vstd::prelude::*;

verus! {

/// H-Group interpretation priority tiers; a lower value is a higher priority.
///
/// `PROMPT` equals `SIMPLE_PLAY_CLUE`, so that when a direct play and a prompt both explain
/// a clue, both belong to the primary tier and the receiver stays ambiguous until the
/// prompt resolves.
pub const SAVE: u8 = 0;

pub const SIMPLE_PLAY_CLUE: u8 = 1;

pub const PROMPT: u8 = 1;

pub const FINESSE: u8 = 3;

/// Clues that only burn a token come after every informative interpretation.
pub const BURN_CLUE: u8 = 4;

/// Interpretations of the stall and last-resort techs, consulted after every other.
pub const STALL: u8 = 255;

/// Save clue techniques.
pub trait SaveClueTech {
}

/// Play clue techniques.
pub trait PlayClueTech {
}

} // verus!
