//! What applying an action tells a search.
use vstd::prelude::*;

verus! {

/// Outcome of applying an action, carrying search-relevant metadata.
#[derive(Clone, Copy, Debug, Default, PartialEq, Eq, Structural)]
pub struct ActionOutcome {
    /// The play succeeded but its stack assignment was deferred (known playable, several
    /// candidate identities).
    pub is_phantom_play: bool,
}

} // verus!
