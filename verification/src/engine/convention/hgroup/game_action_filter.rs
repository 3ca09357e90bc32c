//! Filters on proposed actions.
use vstd::prelude::*;
use crate::engine::convention::hgroup::h_group_core::{has_untouched, is_minimal_clue_value_compliant};
use crate::engine::knowledge::lightweight_player_pov::LightweightPlayerPOV;
use crate::game::action::{GameAction, GameActionView};

verus! {

/// The rule a filter applies.
#[derive(Clone, Copy, Debug, PartialEq, Eq, Structural)]
pub enum FilterRule {
    /// Minimum Clue Value Principle: a clue must touch a card not touched before.
    MinimumClueValue,
}

/// A filter on proposed actions.
#[derive(Clone, Copy, Debug)]
pub struct GameActionFilter {
    pub rule: FilterRule,
}

/// The Minimum Clue Value Principle: non-clue actions pass; a clue passes when it touches
/// a card no clue touched before.
pub open spec fn mcvp_passes(a: GameActionView, pov: LightweightPlayerPOV) -> bool {
    match a {
        GameActionView::Clue { touched, .. } => has_untouched(pov, touched),
        _ => true,
    }
}

impl GameActionFilter {
    pub open spec fn passes(self, a: GameActionView, pov: LightweightPlayerPOV) -> bool {
        match self.rule {
            FilterRule::MinimumClueValue => mcvp_passes(a, pov),
        }
    }

    /// Does `action` pass the filter from `pov`.
    pub fn apply(&self, action: &GameAction, pov: &LightweightPlayerPOV) -> (r: bool)
        ensures
            r == self.passes(action@, *pov),
    {
        match self.rule {
            FilterRule::MinimumClueValue => match action {
                GameAction::Clue { player_index, touched_card_deck_indexes, clue, .. } => {
                    is_minimal_clue_value_compliant(clue, player_index, touched_card_deck_indexes.as_slice(), pov)
                },
                _ => true,
            },
        }
    }

    /// Rejects clues that violate the Minimum Clue Value Principle; other actions pass.
    pub fn minimum_clue_value() -> (r: Self)
        ensures
            r.rule == FilterRule::MinimumClueValue,
    {
        GameActionFilter { rule: FilterRule::MinimumClueValue }
    }
}

/// The actions of `s` that pass every filter of `filters`, in order.
pub open spec fn retain_passing(s: Seq<GameActionView>, filters: Seq<GameActionFilter>, pov: LightweightPlayerPOV) -> Seq<GameActionView>
    decreases s.len(),
{
    if s.len() == 0 {
        Seq::empty()
    } else {
        let prev = retain_passing(s.drop_last(), filters, pov);
        if forall|j: int| 0 <= j < filters.len() ==> #[trigger] filters[j].passes(s.last(), pov) {
            prev.push(s.last())
        } else {
            prev
        }
    }
}

/// Keep the actions that pass every filter.
pub fn retain_filtered(actions: Vec<GameAction>, filters: &Vec<GameActionFilter>, pov: &LightweightPlayerPOV) -> (r: Vec<GameAction>)
    ensures
        r@.map_values(|a: GameAction| a@) == retain_passing(actions@.map_values(|a: GameAction| a@), filters@, *pov),
{
    let ghost s = actions@.map_values(|a: GameAction| a@);
    let mut out: Vec<GameAction> = Vec::new();
    let mut k: usize = 0;
    assert(out@.map_values(|a: GameAction| a@) =~= retain_passing(s.subrange(0, 0), filters@, *pov));
    while k < actions.len()
        invariant
            s == actions@.map_values(|a: GameAction| a@),
            k <= actions@.len(),
            out@.map_values(|a: GameAction| a@) == retain_passing(s.subrange(0, k as int), filters@, *pov),
        decreases actions.len() - k,
    {
        let ghost before = out@;
        proof {
            let t = s.subrange(0, k + 1);
            assert(t.drop_last() =~= s.subrange(0, k as int));
            assert(t.last() == actions@[k as int]@);
        }
        let mut all = true;
        let mut j: usize = 0;
        while j < filters.len()
            invariant
                j <= filters@.len(),
                k < actions@.len(),
                all == forall|i: int| 0 <= i < j ==> #[trigger] filters@[i].passes(actions@[k as int]@, *pov),
            decreases filters.len() - j,
        {
            if !filters[j].apply(&actions[k], pov) {
                all = false;
            }
            j += 1;
        }
        if all {
            out.push(actions[k].duplicate());
            assert(out@.map_values(|a: GameAction| a@) =~= before.map_values(|a: GameAction| a@).push(actions@[k as int]@));
        }
        k += 1;
    }
    assert(s.subrange(0, s.len() as int) =~= s);
    out
}

} // verus!
