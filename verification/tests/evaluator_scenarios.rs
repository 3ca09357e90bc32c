use eel::engine::convention::hgroup::signal::Signal;
use eel::engine::evaluator::{bottom_deck_risk_terms, critical_exposure_delta, critical_exposures, ignores_play_signal, misinformation_counts};
use eel::engine::knowledge::lightweight_player_pov::LightweightPlayerPOV;
use eel::engine::knowledge::player_knowledge::{knowledge_for_hand, PlayerKnowledge};
use eel::engine::knowledge::team_knowledge::TeamKnowledge;
use eel::engine::knowledge_aware_game_state::KnowledgeAwareGameState;
use eel::game::action::{GameAction, TouchedCards};
use eel::game::card::CardIdentityMask;
use eel::game::clue::{Clue, ClueType};
use eel::game::static_game_data::StaticGameData;
use eel::game::table_state::TableState;
use eel::game::variant::Variant;

fn players(n: u8) -> StaticGameData {
    StaticGameData { number_of_players: n, variant: Variant::no_variant() }
}

/// Knowledge seeing every deck position: identities come from the public empathy.
fn omniscient() -> PlayerKnowledge {
    let mut k = PlayerKnowledge::new(0);
    k.visible_cards = u64::MAX;
    k
}

/// A 3-player table with five clue tokens and nothing dealt.
fn make_state() -> (TableState, StaticGameData) {
    let sd = players(3);
    let mut ts = TableState::new(&sd);
    ts.clue_tokens = 5;
    (ts, sd)
}

/// Player 0 holds deck positions 0..5, position 0 the oldest (chop), with identities
/// `ids` revealed on the table.
fn make_chop_test_state(ids_in_hand: [u8; 5]) -> (TableState, StaticGameData, TeamKnowledge) {
    let (mut ts, sd) = make_state();
    for (slot, &id) in ids_in_hand.iter().enumerate() {
        ts.deck_empathy[slot] = 1u64 << id;
    }
    ts.hands[0] = vec![4, 3, 2, 1, 0];
    let mut tk = TeamKnowledge::new(3);
    *tk.player_mut(0) = knowledge_for_hand(&[0, 1, 2, 3, 4]);
    (ts, sd, tk)
}

fn exposure_score(ts: &TableState, sd: &StaticGameData, tk: &TeamKnowledge) -> f64 {
    let knowledge = omniscient();
    let truth = LightweightPlayerPOV::new(0, &knowledge, tk, ts, sd);
    critical_exposures(ts, sd, tk, &truth)
        .iter()
        .map(|&(buffer, rank)| 1.0 / (1.0 + rank as f64 + 4.0 * buffer as f64))
        .sum()
}

fn bottom_deck_risk(idx: u8, ts: &TableState, sd: &StaticGameData) -> f64 {
    let knowledge = omniscient();
    let tk = TeamKnowledge::new(3);
    let truth = LightweightPlayerPOV::new(0, &knowledge, &tk, ts, sd);
    let (candidates, loss) = bottom_deck_risk_terms(idx, ts, sd, &truth);
    if candidates == 0 {
        return 0.0;
    }
    loss as f64 / (candidates as f64 * (ts.deck_size as f64).max(1.0))
}

#[test]
fn signal_ignored_penalty_fires_when_actor_skips_signalled_card() {
    let (mut ts, _sd) = make_state();
    ts.hands[0] = vec![5];
    let mut tk = TeamKnowledge::new(3);
    tk.player_mut(0).own_hand = 1 << 5;
    tk.player_mut(0).signals[5].push(Signal::Play { card_deck_index: 5, committed_identity: 0 });
    let discard = GameAction::Discard { player_index: 0, card_deck_index: 5, turn: 1 };
    assert!(ignores_play_signal(&discard, 0, &tk, &ts));
    let clue = GameAction::Clue {
        player_index: 1,
        touched_card_deck_indexes: TouchedCards::from_indexes(vec![]),
        clue: Clue { clue_type: ClueType::Rank, clue_value: 1 },
        turn: 1,
    };
    assert!(ignores_play_signal(&clue, 0, &tk, &ts));
    let play = GameAction::Play { player_index: 0, card_deck_index: 5, turn: 1 };
    assert!(!ignores_play_signal(&play, 0, &tk, &ts));
}

#[test]
fn signal_ignored_penalty_zero_when_no_active_signal() {
    let (mut ts, _sd) = make_state();
    ts.hands[0] = vec![5];
    let mut tk = TeamKnowledge::new(3);
    tk.player_mut(0).own_hand = 1 << 5;
    let discard = GameAction::Discard { player_index: 0, card_deck_index: 5, turn: 1 };
    assert!(!ignores_play_signal(&discard, 0, &tk, &ts));
}

#[test]
fn signal_ignored_penalty_ignores_touched_signalled_cards() {
    let (mut ts, _sd) = make_state();
    ts.hands[0] = vec![5];
    ts.clue_touched_cards = 1 << 5;
    let mut tk = TeamKnowledge::new(3);
    tk.player_mut(0).own_hand = 1 << 5;
    tk.player_mut(0).signals[5].push(Signal::Play { card_deck_index: 5, committed_identity: 0 });
    let discard = GameAction::Discard { player_index: 0, card_deck_index: 5, turn: 1 };
    assert!(!ignores_play_signal(&discard, 0, &tk, &ts));
}

#[test]
fn misinformation_term_fires_on_excluded_truth() {
    let (mut ts, sd) = make_state();
    ts.deck_empathy[5] = 1 << 7;
    let mut tk = TeamKnowledge::new(3);
    let mut pk0 = knowledge_for_hand(&[5]);
    pk0.inferred_identities[5] = Some(CardIdentityMask::from_bits(1 << 3));
    *tk.player_mut(0) = pk0;
    let knowledge = omniscient();
    let truth = LightweightPlayerPOV::new(0, &knowledge, &tk, &ts, &sd);
    let score = |counts: Vec<u32>| -> f64 {
        counts.iter().map(|&n| if n == 0 { 1.0 } else if n > 1 { 1.0 - 1.0 / n as f64 } else { 0.0 }).sum()
    };
    let score_misinformed = score(misinformation_counts(&sd, &tk, &truth));
    assert!(score_misinformed > 0.0, "misinformation should be positive when the effective mask excludes the truth (got {score_misinformed})");
    tk.player_mut(0).inferred_identities[5] = Some(CardIdentityMask::from_bits(1 << 7));
    let truth = LightweightPlayerPOV::new(0, &knowledge, &tk, &ts, &sd);
    let score_correct = score(misinformation_counts(&sd, &tk, &truth));
    assert_eq!(score_correct, 0.0, "misinformation should be 0 when knowledge exactly matches truth");
}

#[test]
fn critical_exposure_chop_no_buffer_is_one() {
    let (ts, sd, tk) = make_chop_test_state([4, 7, 12, 17, 22]);
    let score = exposure_score(&ts, &sd, &tk);
    assert!((score - 1.0).abs() < 1e-9, "chop critical with no buffer should be exactly 1.0, got {score}");
}

#[test]
fn critical_exposure_slot1_lower_than_chop() {
    let (ts, sd, tk) = make_chop_test_state([7, 12, 17, 22, 4]);
    let score = exposure_score(&ts, &sd, &tk);
    let expected = 1.0 / (1.0 + 4.0);
    assert!((score - expected).abs() < 1e-9, "slot-1 critical with no buffer should be {expected}, got {score}");
}

#[test]
fn critical_exposure_buffer_dominates_position() {
    let (mut ts, sd, mut tk) = make_chop_test_state([4, 0, 5, 10, 15]);
    for (slot, id) in [(1u8, 0u8), (2, 5), (3, 10), (4, 15)] {
        tk.player_mut(0).inferred_identities[slot as usize] = Some(CardIdentityMask::from_bits(1 << id));
        ts.clue_touched_cards |= 1u64 << slot;
    }
    let score = exposure_score(&ts, &sd, &tk);
    let expected = 1.0 / (1.0 + 0.0 + 4.0 * 4.0);
    assert!((score - expected).abs() < 1e-9, "chop critical with 4 buffer should be {expected}, got {score}");
}

#[test]
fn critical_exposure_zero_when_no_critical_mask() {
    let (ts, sd, tk) = make_chop_test_state([0, 5, 10, 15, 20]);
    assert_eq!(exposure_score(&ts, &sd, &tk), 0.0, "no critical identities → zero exposure");
}

#[test]
fn critical_exposure_zero_when_critical_is_touched() {
    let (mut ts, sd, tk) = make_chop_test_state([4, 7, 12, 17, 22]);
    ts.clue_touched_cards |= 1u64 << 0;
    assert_eq!(exposure_score(&ts, &sd, &tk), 0.0, "touched non-playable critical should not contribute to exposure");
}

#[test]
fn bdr_full_deck_is_small() {
    let (ts, sd) = make_state();
    let bdr = bottom_deck_risk(0, &ts, &sd);
    assert!(bdr < 0.5, "full-deck BDR should be small (got {bdr})");
}

#[test]
fn bdr_empty_deck_is_large() {
    let (mut ts, sd) = make_state();
    ts.deck_size = 1;
    let bdr = bottom_deck_risk(0, &ts, &sd);
    assert!(bdr > 1.0, "near-empty-deck BDR should be large (got {bdr})");
}

#[test]
fn bdr_zero_when_surviving_copy_visible() {
    let (mut ts, sd) = make_state();
    ts.deck_empathy[0] = 1 << 1;
    ts.deck_empathy[1] = 1 << 1;
    ts.hands[1] = vec![1];
    assert_eq!(bottom_deck_risk(0, &ts, &sd), 0.0, "visible surviving copy must zero out BDR");
}

#[test]
fn critical_exposure_zero_for_unresolved_chop() {
    let (mut ts, sd) = make_state();
    for (offset, &id) in [7u8, 12, 17, 22].iter().enumerate() {
        ts.deck_empathy[offset + 1] = 1u64 << id;
    }
    ts.hands[0] = vec![4, 3, 2, 1, 0];
    let mut tk = TeamKnowledge::new(3);
    *tk.player_mut(0) = knowledge_for_hand(&[0, 1, 2, 3, 4]);
    assert_eq!(exposure_score(&ts, &sd, &tk), 0.0, "unresolved chop (no truth identity) must not contribute to critical exposure");
}

/// Player 1 holds R5, a critical card, as its chop; player 0 acts.
fn make_critical_chop_states(with_clue_tokens: bool) -> (KnowledgeAwareGameState, KnowledgeAwareGameState, KnowledgeAwareGameState) {
    let sd = players(2);
    let mut ts = TableState::new(&sd);
    ts.deck_empathy[10] = 1 << 4;
    ts.hands[0] = vec![0];
    ts.hands[1] = vec![10];
    ts.clue_tokens = if with_clue_tokens { 4 } else { 0 };
    let mut tk = TeamKnowledge::new(2);
    *tk.player_mut(0) = knowledge_for_hand(&[0]);
    *tk.player_mut(1) = knowledge_for_hand(&[10]);
    let pre = KnowledgeAwareGameState::from_parts(sd.clone(), ts.duplicate(), tk.duplicate(), 0);
    let post_unsaved = KnowledgeAwareGameState::from_parts(sd.clone(), ts.duplicate(), tk.duplicate(), 0);
    let mut saved = ts.duplicate();
    saved.clue_touched_cards |= 1u64 << 10;
    let post_saved = KnowledgeAwareGameState::from_parts(sd, saved, tk, 0);
    (pre, post_unsaved, post_saved)
}

fn delta(pre: &KnowledgeAwareGameState, post: &KnowledgeAwareGameState) -> i32 {
    let knowledge = omniscient();
    let tk = TeamKnowledge::new(2);
    let truth = LightweightPlayerPOV::new(0, &knowledge, &tk, pre.table_state(), pre.static_data());
    critical_exposure_delta(0, pre, post, &truth)
}

#[test]
fn critical_exposure_delta_penalty_when_save_skipped() {
    let (pre, post_unsaved, _) = make_critical_chop_states(true);
    let d = delta(&pre, &post_unsaved);
    assert!(d < 0, "should charge when a critical chop is left unsaved with tokens available (got {d})");
    assert_eq!(d, -1);
}

#[test]
fn critical_exposure_delta_reward_when_chop_saved() {
    let (pre, _, post_saved) = make_critical_chop_states(true);
    let d = delta(&pre, &post_saved);
    assert!(d > 0, "should reward when the critical chop card is saved (got {d})");
    assert_eq!(d, 1);
}

#[test]
fn critical_exposure_delta_no_penalty_when_no_clue_tokens() {
    let (pre, post_unsaved, _) = make_critical_chop_states(false);
    assert_eq!(delta(&pre, &post_unsaved), 0, "no penalty when no clue tokens are available");
}

#[test]
fn critical_exposure_delta_zero_when_no_critical_cards() {
    let sd = players(2);
    let mut ts = TableState::new(&sd);
    ts.deck_empathy[10] = 1 << 0;
    ts.hands[0] = vec![0];
    ts.hands[1] = vec![10];
    ts.clue_tokens = 4;
    let mut tk = TeamKnowledge::new(2);
    *tk.player_mut(0) = knowledge_for_hand(&[0]);
    *tk.player_mut(1) = knowledge_for_hand(&[10]);
    let kags = KnowledgeAwareGameState::from_parts(sd, ts, tk, 0);
    assert_eq!(delta(&kags, &kags), 0, "no effect when no critical cards exist");
}
