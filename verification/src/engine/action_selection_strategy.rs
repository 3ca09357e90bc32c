//! Choosing the active player's action.
use vstd::prelude::*;
use crate::engine::convention::hgroup::h_group_convention_set::HGroupConventionSet;
use crate::engine::knowledge::lightweight_player_pov::LightweightPlayerPOV;
use crate::game::action::GameAction;

verus! {

/// A way of choosing the action of the player on turn, from that player's view of the
/// game and the conventions the team agreed on.
pub trait ActionSelectionStrategy {
    fn select_active_player_action(&self, player_pov: &LightweightPlayerPOV, convention_set: &HGroupConventionSet) -> GameAction
        requires
            player_pov.wf(),
    ;
}

} // verus!
