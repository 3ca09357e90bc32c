//! A greedy strategy: follow the conventions, highest priority first.
use vstd::prelude::*;
use crate::engine::action_selection_strategy::ActionSelectionStrategy;
use crate::engine::convention::convention_tech::ConventionTech;
use crate::engine::convention::hgroup::h_group_convention_set::HGroupConventionSet;
use crate::engine::knowledge::lightweight_player_pov::LightweightPlayerPOV;
use crate::game::action::{GameAction, GameActionView};

verus! {

/// The first action proposed by the techs `techs[i..]`, tried in order; `None` when none
/// proposes one.
pub open spec fn first_tech_action(techs: Seq<ConventionTech>, i: int, pov: LightweightPlayerPOV) -> Option<GameActionView>
    decreases techs.len() - i,
{
    if i < 0 || i >= techs.len() {
        None
    } else if techs[i].actions(pov).len() > 0 {
        Some(techs[i].actions(pov)[0])
    } else {
        first_tech_action(techs, i + 1, pov)
    }
}

/// The action the greedy strategy picks: the first action of the highest-priority tech
/// that proposes one, else the first legal action; a player with no legal action at all
/// passes a draw, which no turn accepts.
pub open spec fn greedy_choice(pov: LightweightPlayerPOV, techs: Seq<ConventionTech>) -> GameActionView {
    match first_tech_action(techs, 0, pov) {
        Some(a) => a,
        None => if pov.legal_actions().len() > 0 {
            pov.legal_actions()[0]
        } else {
            GameActionView::Draw { player_index: pov.me() as usize, card_deck_index: 0 }
        },
    }
}

/// Follows the conventions greedily: the first action the highest-priority tech proposes,
/// else the first legal action.
pub struct GreedyActionSelectionStrategy {}

impl ActionSelectionStrategy for GreedyActionSelectionStrategy {
    fn select_active_player_action(&self, player_pov: &LightweightPlayerPOV, convention_set: &HGroupConventionSet) -> (r: GameAction)
        ensures
            r@ == greedy_choice(*player_pov, convention_set.tech_list()),
    {
        let techs = convention_set.techs();
        let mut i: usize = 0;
        while i < techs.len()
            invariant
                player_pov.wf(),
                techs@ == convention_set.tech_list(),
                i <= techs@.len(),
                first_tech_action(techs@, 0, *player_pov) == first_tech_action(techs@, i as int, *player_pov),
            decreases techs.len() - i,
        {
            let mut actions = techs[i].game_actions(player_pov);
            if actions.len() > 0 {
                proof {
                    assert(actions@.map_values(|a: GameAction| a@)[0] == actions@[0]@);
                }
                return actions.remove(0);
            }
            proof {
                assert(actions@.map_values(|a: GameAction| a@).len() == 0);
            }
            i += 1;
        }
        let mut legal = player_pov.valid_actions();
        if legal.len() > 0 {
            proof {
                assert(legal@.map_values(|a: GameAction| a@)[0] == legal@[0]@);
            }
            return legal.remove(0);
        }
        proof {
            assert(legal@.map_values(|a: GameAction| a@).len() == 0);
        }
        GameAction::Draw { player_index: player_pov.player_index(), card_deck_index: 0 }
    }
}

} // verus!
