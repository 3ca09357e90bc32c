//! The H-Group convention framework: its techs in interpretation order.
use vstd::prelude::*;
use crate::bits::{group_bits, in_mask};
use crate::engine::convention::convention_tech::ConventionTech;
use crate::engine::convention::hgroup::h_group_core::{good_touch_allows, good_touch_baseline_mask};
use crate::game::card::{CardDeckIndex, VariantCardsBitField};
use crate::game::clue::Clue;
use crate::game::static_game_data::StaticGameData;
use crate::game::table_state::TableState;
use crate::game::PlayerIndex;

verus! {

broadcast use group_bits;

/// The techs of `s` with priority `p`, in order.
pub open spec fn with_priority(s: Seq<ConventionTech>, p: int) -> Seq<ConventionTech>
    decreases s.len(),
{
    if s.len() == 0 {
        Seq::empty()
    } else if s.last().priority() == p {
        with_priority(s.drop_last(), p).push(s.last())
    } else {
        with_priority(s.drop_last(), p)
    }
}

/// The techs of `s` with priority below `p`, by priority, keeping the order of equals.
pub open spec fn by_priority_below(s: Seq<ConventionTech>, p: int) -> Seq<ConventionTech>
    decreases p,
{
    if p <= 0 {
        Seq::empty()
    } else {
        by_priority_below(s, p - 1) + with_priority(s, p - 1)
    }
}

/// `s` stably sorted by interpretation priority.
pub open spec fn sorted_by_priority(s: Seq<ConventionTech>) -> Seq<ConventionTech> {
    by_priority_below(s, 256)
}

/// Number of occurrences of `x` in `s`.
pub open spec fn occurrences(s: Seq<ConventionTech>, x: ConventionTech) -> nat
    decreases s.len(),
{
    if s.len() == 0 {
        0
    } else {
        occurrences(s.drop_last(), x) + if s.last() == x { 1nat } else { 0nat }
    }
}

proof fn lemma_occurrences_concat(a: Seq<ConventionTech>, b: Seq<ConventionTech>, x: ConventionTech)
    ensures
        occurrences(a + b, x) == occurrences(a, x) + occurrences(b, x),
    decreases b.len(),
{
    if b.len() > 0 {
        assert((a + b).drop_last() =~= a + b.drop_last());
        lemma_occurrences_concat(a, b.drop_last(), x);
    } else {
        assert(a + b =~= a);
    }
}

proof fn lemma_with_priority(s: Seq<ConventionTech>, p: int, x: ConventionTech)
    ensures
        forall|i: int| 0 <= i < with_priority(s, p).len() ==> (#[trigger] with_priority(s, p)[i]).priority() == p,
        occurrences(with_priority(s, p), x) == if x.priority() == p { occurrences(s, x) } else { 0 },
    decreases s.len(),
{
    if s.len() > 0 {
        lemma_with_priority(s.drop_last(), p, x);
        let w = with_priority(s.drop_last(), p);
        assert(w.push(s.last()).drop_last() =~= w);
    }
}

proof fn lemma_by_priority_below(s: Seq<ConventionTech>, p: int, x: ConventionTech)
    requires
        p >= 0,
    ensures
        forall|i: int| 0 <= i < by_priority_below(s, p).len() ==> (#[trigger] by_priority_below(s, p)[i]).priority() < p,
        forall|i: int, j: int| 0 <= i < j < by_priority_below(s, p).len()
            ==> (#[trigger] by_priority_below(s, p)[i]).priority() <= (#[trigger] by_priority_below(s, p)[j]).priority(),
        occurrences(by_priority_below(s, p), x) == if x.priority() < p { occurrences(s, x) } else { 0 },
    decreases p,
{
    if p > 0 {
        lemma_by_priority_below(s, p - 1, x);
        lemma_with_priority(s, p - 1, x);
        let a = by_priority_below(s, p - 1);
        let b = with_priority(s, p - 1);
        lemma_occurrences_concat(a, b, x);
        assert(by_priority_below(s, p) == a + b);
        assert forall|i: int| 0 <= i < (a + b).len() implies (#[trigger] (a + b)[i]).priority() < p by {
            if i < a.len() {
                assert((a + b)[i] == a[i]);
            } else {
                assert((a + b)[i] == b[i - a.len()]);
            }
        }
        assert forall|i: int, j: int| 0 <= i < j < (a + b).len()
            implies (#[trigger] (a + b)[i]).priority() <= (#[trigger] (a + b)[j]).priority() by {
            if j < a.len() {
                assert((a + b)[i] == a[i]);
                assert((a + b)[j] == a[j]);
            } else if i < a.len() {
                assert((a + b)[i] == a[i]);
                assert((a + b)[j] == b[j - a.len()]);
            } else {
                assert((a + b)[i] == b[i - a.len()]);
                assert((a + b)[j] == b[j - a.len()]);
            }
        }
    }
}

/// A convention set holds its techs by interpretation priority: the list is ordered by
/// priority and holds each given tech exactly as often as it was given.
pub proof fn lemma_techs_in_priority_order(techs: Seq<ConventionTech>, x: ConventionTech)
    ensures
        forall|i: int, j: int| 0 <= i < j < sorted_by_priority(techs).len()
            ==> (#[trigger] sorted_by_priority(techs)[i]).priority() <= (#[trigger] sorted_by_priority(techs)[j]).priority(),
        occurrences(sorted_by_priority(techs), x) == occurrences(techs, x),
{
    lemma_by_priority_below(techs, 256, x);
}

/// The techs consulted, in order, when no primary tech proposes an action.
pub open spec fn fallback_chain() -> Seq<ConventionTech> {
    seq![ConventionTech::FiveStall, ConventionTech::TempoClue, ConventionTech::ClueBurn, ConventionTech::LowLevelStall]
}

/// The default H-Group techs, before sorting.
pub open spec fn default_techs() -> Seq<ConventionTech> {
    seq![
        ConventionTech::PlayKnownPlayable,
        ConventionTech::BlindPlay,
        ConventionTech::DirectPlayClue,
        ConventionTech::DelayedPlayClue,
        ConventionTech::SimplePrompt,
        ConventionTech::SimpleFinesse,
        ConventionTech::ColorCriticalSave,
        ConventionTech::RankCriticalSave,
        ConventionTech::FiveSave,
        ConventionTech::TwoSave,
        ConventionTech::DiscardKnownTrash,
        ConventionTech::DiscardChop,
    ]
}

/// The good-touch baseline of a clue: every touched card, narrowed to the same mask.
pub open spec fn baseline_pairs(touched: Seq<CardDeckIndex>, mask: Option<u64>) -> Seq<(CardDeckIndex, u64)> {
    match mask {
        None => Seq::empty(),
        Some(m) => touched.map_values(|idx: CardDeckIndex| (idx, m)),
    }
}

/// The H-Group convention framework.
pub struct HGroupConventionSet {
    techs: Vec<ConventionTech>,
    fallback_techs: Vec<ConventionTech>,
}

impl HGroupConventionSet {
    /// Techs in interpretation order.
    pub closed spec fn tech_list(&self) -> Seq<ConventionTech> {
        self.techs@
    }

    /// Fallback techs, in chain order (first match wins).
    pub closed spec fn fallback_list(&self) -> Seq<ConventionTech> {
        self.fallback_techs@
    }

    /// The framework with `techs`, stably sorted by priority, and the fallback chain.
    #[must_use]
    pub fn new(techs: Vec<ConventionTech>) -> (r: Self)
        ensures
            r.tech_list() == sorted_by_priority(techs@),
            r.fallback_list() == fallback_chain(),
    {
        let mut sorted: Vec<ConventionTech> = Vec::new();
        let mut p: u16 = 0;
        assert(sorted@ =~= by_priority_below(techs@, 0));
        while p < 256
            invariant
                p <= 256,
                sorted@ == by_priority_below(techs@, p as int),
            decreases 256 - p,
        {
            let ghost base = sorted@;
            let mut k: usize = 0;
            assert(sorted@ =~= base + with_priority(techs@.subrange(0, 0), p as int));
            while k < techs.len()
                invariant
                    p < 256,
                    k <= techs@.len(),
                    base == by_priority_below(techs@, p as int),
                    sorted@ == base + with_priority(techs@.subrange(0, k as int), p as int),
                decreases techs.len() - k,
            {
                proof {
                    let t = techs@.subrange(0, k + 1);
                    assert(t.drop_last() =~= techs@.subrange(0, k as int));
                    assert(t.last() == techs@[k as int]);
                }
                let ghost before = sorted@;
                if techs[k].interpretation_priority() as u16 == p {
                    sorted.push(techs[k]);
                    assert(sorted@ =~= before.push(techs@[k as int]));
                }
                k += 1;
            }
            assert(techs@.subrange(0, techs@.len() as int) =~= techs@);
            p += 1;
        }
        let fallback_techs = vec![
            ConventionTech::FiveStall,
            ConventionTech::TempoClue,
            ConventionTech::ClueBurn,
            ConventionTech::LowLevelStall,
        ];
        assert(fallback_techs@ =~= fallback_chain());
        HGroupConventionSet { techs: sorted, fallback_techs }
    }

    /// All techs, in priority order.
    pub fn techs(&self) -> (r: &[ConventionTech])
        ensures
            r@ == self.tech_list(),
    {
        self.techs.as_slice()
    }

    /// Fallback techs, in chain order.
    pub fn fallback_techs(&self) -> (r: &[ConventionTech])
        ensures
            r@ == self.fallback_list(),
    {
        self.fallback_techs.as_slice()
    }

    /// Good-touch baseline narrowing of the receiver's touched cards: each touched card
    /// narrows to the identities the clue allows that are still needed and not clued in
    /// another hand; nothing when no identity would remain.
    pub fn clue_receiver_baseline(
        &self,
        clue: &Clue,
        touched: &[CardDeckIndex],
        receiver: PlayerIndex,
        table_state: &TableState,
        static_data: &StaticGameData,
    ) -> (r: Vec<(CardDeckIndex, VariantCardsBitField)>)
        requires
            table_state.wf(static_data),
        ensures
            r@ == baseline_pairs(touched@, good_touch_baseline_spec(clue, receiver, table_state, static_data)),
    {
        let mask = good_touch_baseline_mask(clue, receiver, table_state, static_data);
        match mask {
            None => {
                let r: Vec<(CardDeckIndex, VariantCardsBitField)> = Vec::new();
                assert(r@ =~= baseline_pairs(touched@, good_touch_baseline_spec(clue, receiver, table_state, static_data)));
                r
            },
            Some(m) => {
                let mut out: Vec<(CardDeckIndex, VariantCardsBitField)> = Vec::new();
                let mut k: usize = 0;
                while k < touched.len()
                    invariant
                        k <= touched@.len(),
                        out@ == touched@.subrange(0, k as int).map_values(|idx: CardDeckIndex| (idx, m)),
                    decreases touched.len() - k,
                {
                    out.push((touched[k], m));
                    assert(out@ =~= touched@.subrange(0, k + 1).map_values(|idx: CardDeckIndex| (idx, m)));
                    k += 1;
                }
                assert(touched@.subrange(0, touched@.len() as int) =~= touched@);
                proof {
                    lemma_baseline_mask_unique(clue, receiver, table_state, static_data, m);
                }
                out
            },
        }
    }
}

/// The good-touch baseline mask: `None` when no identity is allowed, else the mask of
/// the allowed identities.
pub open spec fn good_touch_baseline_spec(clue: &Clue, receiver: PlayerIndex, ts: &TableState, sd: &StaticGameData) -> Option<u64> {
    if forall|i: int| !good_touch_allows(clue, receiver as int, ts, sd, i) {
        None
    } else {
        Some(crate::bits::mask_of(64, |i: int| good_touch_allows(clue, receiver as int, ts, sd, i)))
    }
}

/// The good-touch baseline mask of a clue ignores which of the receiver's own cards are
/// clued: with other hands disjoint from the receiver's, a board that differs only in the
/// clue-touched marks of the receiver's cards gives the same mask.
pub proof fn lemma_good_touch_baseline_ignores_receiver_marks(clue: &Clue, receiver: PlayerIndex, ts: &TableState, ts2: &TableState, sd: &StaticGameData)
    requires
        forall|p: int| #[trigger] ts2.hand(p) == ts.hand(p),
        ts2.playing_stacks@ == ts.playing_stacks@,
        ts2.discard_pile@ == ts.discard_pile@,
        ts2.deck_empathy@ == ts.deck_empathy@,
        forall|c: int| ts.touched(c) != ts2.touched(c) ==> #[trigger] ts.hand(receiver as int).contains(c as u8),
        forall|p: int, k: int| 0 <= p < sd.number_of_players && p != receiver && 0 <= k < ts.hand(p).len()
            ==> !ts.hand(receiver as int).contains(#[trigger] ts.hand(p)[k]),
    ensures
        good_touch_baseline_spec(clue, receiver, ts2, sd) == good_touch_baseline_spec(clue, receiver, ts, sd),
{
    assert forall|i: int| #[trigger] good_touch_allows(clue, receiver as int, ts2, sd, i) == good_touch_allows(clue, receiver as int, ts, sd, i) by {
        crate::engine::convention::hgroup::h_group_core::lemma_good_touch_ignores_receiver_marks(clue, receiver as int, ts, ts2, sd, i);
    }
    let f2 = |i: int| good_touch_allows(clue, receiver as int, ts2, sd, i);
    let f1 = |i: int| good_touch_allows(clue, receiver as int, ts, sd, i);
    crate::bits::lemma_mask_of(64, f1);
    crate::bits::lemma_mask_of(64, f2);
    assert forall|i: int| 0 <= i < 64 implies in_mask(crate::bits::mask_of(64, f2), i) == in_mask(crate::bits::mask_of(64, f1), i) by {
        assert(f2(i) == f1(i));
    }
    crate::bits::lemma_ext(crate::bits::mask_of(64, f2), crate::bits::mask_of(64, f1));
    if forall|i: int| !good_touch_allows(clue, receiver as int, ts, sd, i) {
        assert forall|i: int| !good_touch_allows(clue, receiver as int, ts2, sd, i) by {
            assert(good_touch_allows(clue, receiver as int, ts2, sd, i) == good_touch_allows(clue, receiver as int, ts, sd, i));
        }
    } else {
        let j = choose|i: int| good_touch_allows(clue, receiver as int, ts, sd, i);
        assert(good_touch_allows(clue, receiver as int, ts2, sd, j));
    }
}

/// A mask holding exactly the allowed identities is the baseline mask.
pub proof fn lemma_baseline_mask_unique(clue: &Clue, receiver: PlayerIndex, ts: &TableState, sd: &StaticGameData, m: u64)
    requires
        m != 0,
        forall|i: int| #[trigger] in_mask(m, i) <==> good_touch_allows(clue, receiver as int, ts, sd, i),
    ensures
        good_touch_baseline_spec(clue, receiver, ts, sd) == Some(m),
{
    crate::bits::lemma_zero_iff(m);
    let i = choose|i: int| in_mask(m, i);
    assert(good_touch_allows(clue, receiver as int, ts, sd, i));
    crate::bits::lemma_mask_of_eq(m, 64, |i: int| good_touch_allows(clue, receiver as int, ts, sd, i));
}

impl Default for HGroupConventionSet {
    /// The standard H-Group techs.
    fn default() -> (r: Self)
        ensures
            r.tech_list() == sorted_by_priority(default_techs()),
            r.fallback_list() == fallback_chain(),
    {
        let techs = vec![
            ConventionTech::PlayKnownPlayable,
            ConventionTech::BlindPlay,
            ConventionTech::DirectPlayClue,
            ConventionTech::DelayedPlayClue,
            ConventionTech::SimplePrompt,
            ConventionTech::SimpleFinesse,
            ConventionTech::ColorCriticalSave,
            ConventionTech::RankCriticalSave,
            ConventionTech::FiveSave,
            ConventionTech::TwoSave,
            ConventionTech::DiscardKnownTrash,
            ConventionTech::DiscardChop,
        ];
        assert(techs@ =~= default_techs());
        HGroupConventionSet::new(techs)
    }
}

} // verus!
