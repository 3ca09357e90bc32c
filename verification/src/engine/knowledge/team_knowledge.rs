//! What every player of the team knows.
use vstd::prelude::*;
use crate::bits::{group_bits, in_mask, single, bit};
use crate::engine::knowledge::player_knowledge::{after_cohort, hyps_view, ids_after_cohort, resolved, KnowledgeView, PlayerKnowledge};
use crate::engine::knowledge::knowledge_update::{updates_wf, Hypothesis, HypothesisId};
use crate::game::action::GameAction;
use crate::game::variant::Variant;
use crate::game::card::{CardDeckIndex, CardIdentityMask, VariantCardId};
use crate::game::{PlayerIndex, MAX_CARDS_IN_DECK, MAX_PLAYERS_IN_GAME};

verus! {

broadcast use group_bits;

/// One [`PlayerKnowledge`] per seat; seats past `num_players` hold empty knowledge.
#[derive(Debug)]
pub struct TeamKnowledge {
    player_knowledge: Vec<PlayerKnowledge>,
    num_players: usize,
}

/// Knowledge after card `idx` is revealed as `id`.
pub open spec fn revealed(kv: KnowledgeView, idx: int, id: int) -> KnowledgeView {
    KnowledgeView {
        inferred: kv.inferred.update(idx, Some(CardIdentityMask { bits: single(id) })),
        visible: kv.visible | single(idx),
        ..kv
    }
}

impl TeamKnowledge {
    pub closed spec fn spec_num_players(&self) -> int {
        self.num_players as int
    }

    /// Knowledge of player `p`.
    pub closed spec fn knowledge(&self, p: int) -> PlayerKnowledge {
        self.player_knowledge@[p]
    }

    pub open spec fn view_of(&self, p: int) -> KnowledgeView {
        self.knowledge(p)@
    }

    /// The knowledge of every seat.
    pub open spec fn views(&self) -> Seq<KnowledgeView> {
        Seq::new(MAX_PLAYERS_IN_GAME as nat, |p: int| self.view_of(p))
    }

    pub closed spec fn wf(&self) -> bool {
        &&& self.player_knowledge@.len() == MAX_PLAYERS_IN_GAME
        &&& self.num_players <= MAX_PLAYERS_IN_GAME
        &&& forall|p: int| 0 <= p < MAX_PLAYERS_IN_GAME ==> (#[trigger] self.player_knowledge@[p]).wf()
    }

    pub proof fn lemma_wf(&self)
        requires
            self.wf(),
        ensures
            self.spec_num_players() <= MAX_PLAYERS_IN_GAME,
            forall|p: int| 0 <= p < MAX_PLAYERS_IN_GAME ==> (#[trigger] self.knowledge(p)).wf(),
    {
    }

    /// Nobody knows anything yet.
    pub open spec fn fresh(&self, num_players: int) -> bool {
        &&& self.spec_num_players() == num_players
        &&& forall|p: int| 0 <= p < MAX_PLAYERS_IN_GAME ==> {
            &&& (#[trigger] self.view_of(p)).player_index == if p < num_players { p } else { 0 }
            &&& forall|k: int| 0 <= k < MAX_CARDS_IN_DECK ==> (#[trigger] self.view_of(p).inferred[k]) is None
            &&& forall|k: int| 0 <= k < MAX_CARDS_IN_DECK ==> (#[trigger] self.view_of(p).signals[k]).len() == 0
            &&& self.view_of(p).visible == 0
            &&& self.view_of(p).own_hand == 0
            &&& self.view_of(p).hypotheses.len() == 0
        }
    }

    /// Fresh knowledge for `num_players` players.
    #[must_use]
    pub fn new(num_players: usize) -> (r: Self)
        requires
            num_players <= MAX_PLAYERS_IN_GAME,
        ensures
            r.wf(),
            r.fresh(num_players as int),
            r.spec_num_players() == num_players,
            forall|p: int| 0 <= p < MAX_PLAYERS_IN_GAME ==> {
                &&& (#[trigger] r.view_of(p)).player_index == if p < num_players { p } else { 0 }
                &&& forall|k: int| 0 <= k < MAX_CARDS_IN_DECK ==> (#[trigger] r.view_of(p).inferred[k]) is None
                &&& forall|k: int| 0 <= k < MAX_CARDS_IN_DECK ==> (#[trigger] r.view_of(p).signals[k]).len() == 0
                &&& r.view_of(p).visible == 0
                &&& r.view_of(p).own_hand == 0
                &&& r.view_of(p).hypotheses.len() == 0
            },
    {
        let mut player_knowledge: Vec<PlayerKnowledge> = Vec::new();
        let mut i: usize = 0;
        while i < MAX_PLAYERS_IN_GAME
            invariant
                i <= MAX_PLAYERS_IN_GAME,
                player_knowledge@.len() == i,
                forall|p: int| 0 <= p < i ==> {
                    &&& (#[trigger] player_knowledge@[p]).wf()
                    &&& player_knowledge@[p]@.player_index == if p < num_players { p } else { 0 }
                    &&& forall|k: int| 0 <= k < MAX_CARDS_IN_DECK ==> (#[trigger] player_knowledge@[p]@.inferred[k]) is None
                    &&& forall|k: int| 0 <= k < MAX_CARDS_IN_DECK ==> (#[trigger] player_knowledge@[p]@.signals[k]).len() == 0
                    &&& player_knowledge@[p]@.visible == 0
                    &&& player_knowledge@[p]@.own_hand == 0
                    &&& player_knowledge@[p]@.hypotheses.len() == 0
                },
            decreases MAX_PLAYERS_IN_GAME - i,
        {
            let k = if i < num_players { PlayerKnowledge::new(i) } else { PlayerKnowledge::empty() };
            player_knowledge.push(k);
            i += 1;
        }
        TeamKnowledge { player_knowledge, num_players }
    }

    /// A copy of the team's knowledge.
    pub fn duplicate(&self) -> (r: Self)
        requires
            self.wf(),
        ensures
            r.wf(),
            r.spec_num_players() == self.spec_num_players(),
            forall|p: int| 0 <= p < MAX_PLAYERS_IN_GAME ==> #[trigger] r.view_of(p) == self.view_of(p),
    {
        let mut player_knowledge: Vec<PlayerKnowledge> = Vec::new();
        let mut i: usize = 0;
        while i < self.player_knowledge.len()
            invariant
                self.wf(),
                i <= MAX_PLAYERS_IN_GAME,
                player_knowledge@.len() == i,
                forall|p: int| 0 <= p < i ==> (#[trigger] player_knowledge@[p]).wf() && player_knowledge@[p]@ == self.player_knowledge@[p]@,
            decreases self.player_knowledge.len() - i,
        {
            player_knowledge.push(self.player_knowledge[i].duplicate());
            i += 1;
        }
        TeamKnowledge { player_knowledge, num_players: self.num_players }
    }

    /// Knowledge of player `player_index`.
    #[must_use]
    pub fn player(&self, player_index: usize) -> (r: &PlayerKnowledge)
        requires
            self.wf(),
            player_index < MAX_PLAYERS_IN_GAME,
        ensures
            *r == self.knowledge(player_index as int),
            r.wf(),
    {
        &self.player_knowledge[player_index]
    }

    /// Mutable knowledge of player `player_index`.
    pub fn player_mut(&mut self, player_index: usize) -> (r: &mut PlayerKnowledge)
        requires
            old(self).wf(),
            player_index < MAX_PLAYERS_IN_GAME,
        ensures
            *r == old(self).knowledge(player_index as int),
            r.wf(),
            final(r).wf() ==> final(self).wf(),
            final(self).spec_num_players() == old(self).spec_num_players(),
            final(self).knowledge(player_index as int) == *final(r),
            forall|p: int| 0 <= p < MAX_PLAYERS_IN_GAME && p != player_index ==> #[trigger] final(self).knowledge(p) == old(self).knowledge(p),
    {
        &mut self.player_knowledge[player_index]
    }

    /// A card is drawn by `player_index`: every other player sees it; the drawer knows it
    /// joined their hand.
    pub fn update_with_card_drawn(&mut self, player_index: usize, card_position_in_starting_deck: CardDeckIndex, card_id: VariantCardId)
        requires
            old(self).wf(),
            player_index < MAX_PLAYERS_IN_GAME,
            card_position_in_starting_deck < MAX_CARDS_IN_DECK,
            card_id < 64,
        ensures
            final(self).wf(),
            final(self).spec_num_players() == old(self).spec_num_players(),
            forall|p: int| 0 <= p < old(self).spec_num_players() && p != player_index ==> #[trigger] final(self).view_of(p) == revealed(old(self).view_of(p), card_position_in_starting_deck as int, card_id as int),
            final(self).view_of(player_index as int) == (KnowledgeView {
                own_hand: old(self).view_of(player_index as int).own_hand | single(card_position_in_starting_deck as int),
                ..old(self).view_of(player_index as int)
            }),
            forall|p: int| old(self).spec_num_players() <= p < MAX_PLAYERS_IN_GAME && p != player_index ==> #[trigger] final(self).view_of(p) == old(self).view_of(p),
    {
        let n = self.num_players;
        let mut i: usize = 0;
        while i < n
            invariant
                self.wf(),
                n == self.num_players,
                n == old(self).spec_num_players(),
                n <= MAX_PLAYERS_IN_GAME,
                i <= n,
                player_index < MAX_PLAYERS_IN_GAME,
                card_position_in_starting_deck < MAX_CARDS_IN_DECK,
                card_id < 64,
                forall|p: int| 0 <= p < i && p != player_index ==> #[trigger] self.view_of(p) == revealed(old(self).view_of(p), card_position_in_starting_deck as int, card_id as int),
                forall|p: int| 0 <= p < MAX_PLAYERS_IN_GAME && (i <= p || p == player_index) ==> #[trigger] self.view_of(p) == old(self).view_of(p),
            decreases n - i,
        {
            let ghost pre = *self;
            if i != player_index {
                self.player_knowledge[i].update_with_revealed_card(card_position_in_starting_deck, card_id);
                proof {
                    assert(self.player_knowledge@ == pre.player_knowledge@.update(i as int, self.player_knowledge@[i as int]));
                    assert(pre.view_of(i as int) == old(self).view_of(i as int));
                    assert forall|p: int| 0 <= p < MAX_PLAYERS_IN_GAME && p != i implies #[trigger] self.view_of(p) == pre.view_of(p) by {
                        assert(self.player_knowledge@[p] == pre.player_knowledge@[p]);
                    }
                    assert(self.view_of(i as int) == revealed(old(self).view_of(i as int), card_position_in_starting_deck as int, card_id as int));
                }
            }
            i += 1;
        }
        let ghost pre = *self;
        self.player_knowledge[player_index].own_hand = self.player_knowledge[player_index].own_hand | bit(card_position_in_starting_deck);
        proof {
            assert(self.player_knowledge@ == pre.player_knowledge@.update(player_index as int, self.player_knowledge@[player_index as int]));
            assert(pre.view_of(player_index as int) == old(self).view_of(player_index as int));
            assert forall|p: int| 0 <= p < MAX_PLAYERS_IN_GAME && p != player_index implies #[trigger] self.view_of(p) == pre.view_of(p) by {
                assert(self.player_knowledge@[p] == pre.player_knowledge@[p]);
            }
            assert(self.view_of(player_index as int).signals =~= pre.view_of(player_index as int).signals);
            assert(self.view_of(player_index as int).hypotheses =~= pre.view_of(player_index as int).hypotheses);
        }
    }

    /// Set the own-hand positions of `player_index`.
    pub fn set_own_hand(&mut self, player_index: usize, own_hand: u64)
        requires
            old(self).wf(),
            player_index < MAX_PLAYERS_IN_GAME,
        ensures
            final(self).wf(),
            final(self).spec_num_players() == old(self).spec_num_players(),
            final(self).view_of(player_index as int) == (KnowledgeView { own_hand, ..old(self).view_of(player_index as int) }),
            forall|q: int| 0 <= q < MAX_PLAYERS_IN_GAME && q != player_index ==> #[trigger] final(self).view_of(q) == old(self).view_of(q),
    {
        let ghost pre = *self;
        self.player_knowledge[player_index].own_hand = own_hand;
        proof {
            assert(self.view_of(player_index as int).signals =~= pre.view_of(player_index as int).signals);
            assert(self.view_of(player_index as int).hypotheses =~= pre.view_of(player_index as int).hypotheses);
        }
        proof {
            assert(self.player_knowledge@ == pre.player_knowledge@.update(player_index as int, self.player_knowledge@[player_index as int]));
            assert forall|q: int| 0 <= q < MAX_PLAYERS_IN_GAME && q != player_index implies #[trigger] self.view_of(q) == pre.view_of(q) by {
                assert(self.player_knowledge@[q] == pre.player_knowledge@[q]);
            }
        }
    }

    /// Baseline narrowing of a card in the knowledge of `player_index`.
    pub fn narrow_player(&mut self, player_index: usize, card_deck_index: CardDeckIndex, mask: u64, variant: &Variant)
        requires
            old(self).wf(),
            player_index < MAX_PLAYERS_IN_GAME,
            variant.wf(),
            card_deck_index < MAX_CARDS_IN_DECK,
        ensures
            final(self).wf(),
            final(self).spec_num_players() == old(self).spec_num_players(),
            final(self).view_of(player_index as int) == old(self).view_of(player_index as int).narrow(card_deck_index as int, mask, variant),
            forall|q: int| 0 <= q < MAX_PLAYERS_IN_GAME && q != player_index ==> #[trigger] final(self).view_of(q) == old(self).view_of(q),
    {
        let ghost pre = *self;
        self.player_knowledge[player_index].narrow_inferred(card_deck_index, mask, variant);
        proof {
            assert(self.player_knowledge@ == pre.player_knowledge@.update(player_index as int, self.player_knowledge@[player_index as int]));
            assert forall|q: int| 0 <= q < MAX_PLAYERS_IN_GAME && q != player_index implies #[trigger] self.view_of(q) == pre.view_of(q) by {
                assert(self.player_knowledge@[q] == pre.player_knowledge@[q]);
            }
        }
    }

    /// Baseline exclusion of `mask` from a card in the knowledge of `player_index`.
    pub fn exclude_player(&mut self, player_index: usize, card_deck_index: CardDeckIndex, mask: u64, variant: &Variant)
        requires
            old(self).wf(),
            player_index < MAX_PLAYERS_IN_GAME,
            variant.wf(),
            card_deck_index < MAX_CARDS_IN_DECK,
        ensures
            final(self).wf(),
            final(self).spec_num_players() == old(self).spec_num_players(),
            final(self).view_of(player_index as int) == old(self).view_of(player_index as int).narrow(card_deck_index as int, !mask, variant),
            forall|q: int| 0 <= q < MAX_PLAYERS_IN_GAME && q != player_index ==> #[trigger] final(self).view_of(q) == old(self).view_of(q),
    {
        let ghost pre = *self;
        self.player_knowledge[player_index].exclude_inferred(card_deck_index, mask, variant);
        proof {
            assert(self.player_knowledge@ == pre.player_knowledge@.update(player_index as int, self.player_knowledge@[player_index as int]));
            assert forall|q: int| 0 <= q < MAX_PLAYERS_IN_GAME && q != player_index implies #[trigger] self.view_of(q) == pre.view_of(q) by {
                assert(self.player_knowledge@[q] == pre.player_knowledge@[q]);
            }
        }
    }

    /// Resolve, in the knowledge of `player_index`, the hypotheses `actor`'s action triggers.
    pub fn resolve_player_pending(&mut self, player_index: usize, actor: PlayerIndex, action: &GameAction, played_identity: Option<VariantCardId>, variant: &Variant)
        requires
            old(self).wf(),
            player_index < MAX_PLAYERS_IN_GAME,
            variant.wf(),
        ensures
            final(self).wf(),
            final(self).spec_num_players() == old(self).spec_num_players(),
            final(self).view_of(player_index as int) == resolved(old(self).view_of(player_index as int), actor, action@, played_identity, variant),
            forall|q: int| 0 <= q < MAX_PLAYERS_IN_GAME && q != player_index ==> #[trigger] final(self).view_of(q) == old(self).view_of(q),
    {
        let ghost pre = *self;
        self.player_knowledge[player_index].resolve_pending(actor, action, played_identity, variant);
        proof {
            assert(self.player_knowledge@ == pre.player_knowledge@.update(player_index as int, self.player_knowledge@[player_index as int]));
            assert forall|q: int| 0 <= q < MAX_PLAYERS_IN_GAME && q != player_index implies #[trigger] self.view_of(q) == pre.view_of(q) by {
                assert(self.player_knowledge@[q] == pre.player_knowledge@[q]);
            }
        }
    }

    /// Store a cohort of hypotheses in the knowledge of `player_index`.
    pub fn apply_player_cohort(
        &mut self,
        player_index: usize,
        cohort_id: HypothesisId,
        hypotheses: Vec<(u8, Hypothesis)>,
        next_id: &mut HypothesisId,
        variant: &Variant,
    )
        requires
            old(self).wf(),
            player_index < MAX_PLAYERS_IN_GAME,
            variant.wf(),
            forall|k: int| 0 <= k < hypotheses@.len() ==> updates_wf((#[trigger] hypotheses@[k]).1@.immediate),
            *old(next_id) + hypotheses@.len() <= u32::MAX,
        ensures
            final(self).wf(),
            final(self).spec_num_players() == old(self).spec_num_players(),
            final(self).view_of(player_index as int) == after_cohort(old(self).view_of(player_index as int), cohort_id, hyps_view(hypotheses@), *old(next_id) as int, variant),
            *final(next_id) == ids_after_cohort(hyps_view(hypotheses@), *old(next_id) as int),
            forall|q: int| 0 <= q < MAX_PLAYERS_IN_GAME && q != player_index ==> #[trigger] final(self).view_of(q) == old(self).view_of(q),
    {
        let ghost pre = *self;
        self.player_knowledge[player_index].apply_cohort(cohort_id, hypotheses, next_id, variant);
        proof {
            assert(self.player_knowledge@ == pre.player_knowledge@.update(player_index as int, self.player_knowledge@[player_index as int]));
            assert forall|q: int| 0 <= q < MAX_PLAYERS_IN_GAME && q != player_index implies #[trigger] self.view_of(q) == pre.view_of(q) by {
                assert(self.player_knowledge@[q] == pre.player_knowledge@[q]);
            }
        }
    }

    /// Number of active players.
    #[must_use]
    pub fn num_players(&self) -> (r: usize)
        ensures
            r == self.spec_num_players(),
    {
        self.num_players
    }
}

} // verus!
