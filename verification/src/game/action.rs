//! Game actions.
use vstd::prelude::*;
use crate::game::card::CardDeckIndex;
use crate::game::clue::Clue;
use crate::game::{PlayerIndex, MAX_HAND_SIZE};

verus! {

/// Deck positions touched by a clue, newest first, stored inline for hands of usual size.
#[verifier::external_body]
#[derive(Debug, PartialEq, Eq)]
pub struct TouchedCards {
    inner: smallvec::SmallVec<[CardDeckIndex; MAX_HAND_SIZE]>,
}

/// The positions a [`TouchedCards`] holds, in order.
pub uninterp spec fn touched_cards_seq(v: TouchedCards) -> Seq<CardDeckIndex>;

/// `SmallVec::from_vec`: the small vector holds the elements of `v` in order.
#[verifier::external_body]
fn smallvec_from_vec(v: Vec<CardDeckIndex>) -> (r: TouchedCards)
    ensures
        touched_cards_seq(r) == v@,
{
    TouchedCards { inner: smallvec::SmallVec::from_vec(v) }
}

/// `SmallVec::as_slice`: the slice holds the elements of the small vector in order.
#[verifier::external_body]
fn smallvec_as_slice(v: &TouchedCards) -> (r: &[CardDeckIndex])
    ensures
        r@ == touched_cards_seq(*v),
{
    v.inner.as_slice()
}

/// `SmallVec::clone` of a vector of bytes: the copy holds the same elements in order.
#[verifier::external_body]
fn smallvec_clone(v: &TouchedCards) -> (r: TouchedCards)
    ensures
        touched_cards_seq(r) == touched_cards_seq(*v),
{
    TouchedCards { inner: v.inner.clone() }
}

impl Clone for TouchedCards {
    fn clone(&self) -> (r: Self)
        ensures
            touched_cards_seq(r) == touched_cards_seq(*self),
    {
        smallvec_clone(self)
    }
}

impl TouchedCards {
    pub open spec fn view(&self) -> Seq<CardDeckIndex> {
        touched_cards_seq(*self)
    }

    pub fn from_indexes(v: Vec<CardDeckIndex>) -> (r: Self)
        ensures
            r@ == v@,
    {
        smallvec_from_vec(v)
    }

    pub fn as_slice(&self) -> (r: &[CardDeckIndex])
        ensures
            r@ == self@,
    {
        smallvec_as_slice(self)
    }

    pub fn len(&self) -> (r: usize)
        ensures
            r == self@.len(),
    {
        smallvec_as_slice(self).len()
    }

    pub fn duplicate(&self) -> (r: Self)
        ensures
            r@ == self@,
    {
        smallvec_clone(self)
    }
}

/// An action a player takes on their turn (or a draw that follows one). Two actions are
/// equal when they are the same move: the turn they were taken on is not compared.
#[derive(Clone, Debug, Eq)]
pub enum GameAction {
    Play { player_index: PlayerIndex, card_deck_index: CardDeckIndex, turn: usize },
    Discard { player_index: PlayerIndex, card_deck_index: CardDeckIndex, turn: usize },
    /// `player_index` is the clue receiver.
    Clue {
        player_index: PlayerIndex,
        touched_card_deck_indexes: TouchedCards,
        clue: Clue,
        turn: usize,
    },
    Draw { player_index: PlayerIndex, card_deck_index: CardDeckIndex },
}

/// A game action with its touched cards as a sequence.
pub enum GameActionView {
    Play { player_index: PlayerIndex, card_deck_index: CardDeckIndex, turn: usize },
    Discard { player_index: PlayerIndex, card_deck_index: CardDeckIndex, turn: usize },
    Clue { player_index: PlayerIndex, touched: Seq<CardDeckIndex>, clue: Clue, turn: usize },
    Draw { player_index: PlayerIndex, card_deck_index: CardDeckIndex },
}

impl GameAction {
    pub open spec fn view(&self) -> GameActionView {
        match *self {
            GameAction::Play { player_index, card_deck_index, turn } => GameActionView::Play {
                player_index,
                card_deck_index,
                turn,
            },
            GameAction::Discard { player_index, card_deck_index, turn } => GameActionView::Discard {
                player_index,
                card_deck_index,
                turn,
            },
            GameAction::Clue { player_index, touched_card_deck_indexes, clue, turn } =>
                GameActionView::Clue { player_index, touched: touched_card_deck_indexes@, clue, turn },
            GameAction::Draw { player_index, card_deck_index } => GameActionView::Draw {
                player_index,
                card_deck_index,
            },
        }
    }

    /// A copy of the action.
    pub fn duplicate(&self) -> (r: Self)
        ensures
            r@ == self@,
    {
        match self {
            GameAction::Play { player_index, card_deck_index, turn } => GameAction::Play {
                player_index: *player_index,
                card_deck_index: *card_deck_index,
                turn: *turn,
            },
            GameAction::Discard { player_index, card_deck_index, turn } => GameAction::Discard {
                player_index: *player_index,
                card_deck_index: *card_deck_index,
                turn: *turn,
            },
            GameAction::Clue { player_index, touched_card_deck_indexes, clue, turn } =>
                GameAction::Clue {
                player_index: *player_index,
                touched_card_deck_indexes: touched_card_deck_indexes.duplicate(),
                clue: *clue,
                turn: *turn,
            },
            GameAction::Draw { player_index, card_deck_index } => GameAction::Draw {
                player_index: *player_index,
                card_deck_index: *card_deck_index,
            },
        }
    }
}

/// The two actions are the same move, whatever turn each was taken on.
pub open spec fn same_move(a: GameActionView, b: GameActionView) -> bool {
    match (a, b) {
        (GameActionView::Play { player_index: p, card_deck_index: c, .. }, GameActionView::Play { player_index: q, card_deck_index: d, .. }) => p == q && c == d,
        (GameActionView::Discard { player_index: p, card_deck_index: c, .. }, GameActionView::Discard { player_index: q, card_deck_index: d, .. }) => p == q && c == d,
        (GameActionView::Clue { player_index: p, touched: t, clue: c, .. }, GameActionView::Clue { player_index: q, touched: u, clue: d, .. }) => p == q && t == u && c == d,
        (GameActionView::Draw { player_index: p, card_deck_index: c }, GameActionView::Draw { player_index: q, card_deck_index: d }) => p == q && c == d,
        _ => false,
    }
}

/// The two slices hold the same bytes in the same order.
pub fn same_bytes(a: &[u8], b: &[u8]) -> (r: bool)
    ensures
        r == (a@ == b@),
{
    if a.len() != b.len() {
        return false;
    }
    let mut i: usize = 0;
    while i < a.len()
        invariant
            a@.len() == b@.len(),
            i <= a@.len(),
            forall|j: int| 0 <= j < i ==> a@[j] == b@[j],
        decreases a.len() - i,
    {
        if a[i] != b[i] {
            return false;
        }
        i += 1;
    }
    assert(a@ =~= b@);
    true
}

impl PartialEq for GameAction {
    fn eq(&self, other: &Self) -> (r: bool) {
        match (self, other) {
            (GameAction::Play { player_index: p, card_deck_index: c, .. }, GameAction::Play { player_index: q, card_deck_index: d, .. }) => *p == *q && *c == *d,
            (GameAction::Discard { player_index: p, card_deck_index: c, .. }, GameAction::Discard { player_index: q, card_deck_index: d, .. }) => *p == *q && *c == *d,
            (
                GameAction::Clue { player_index: p, touched_card_deck_indexes: t, clue: c, .. },
                GameAction::Clue { player_index: q, touched_card_deck_indexes: u, clue: d, .. },
            ) => *p == *q && same_bytes(t.as_slice(), u.as_slice()) && c.clue_type == d.clue_type && c.clue_value == d.clue_value,
            (GameAction::Draw { player_index: p, card_deck_index: c }, GameAction::Draw { player_index: q, card_deck_index: d }) => *p == *q && *c == *d,
            _ => false,
        }
    }
}

impl vstd::std_specs::cmp::PartialEqSpecImpl for GameAction {
    open spec fn obeys_eq_spec() -> bool {
        true
    }

    open spec fn eq_spec(&self, other: &Self) -> bool {
        same_move(self@, other@)
    }
}

} // verus!
