use rand::SeedableRng;
use eel::engine::action_selection_strategy::ActionSelectionStrategy;
use eel::engine::convention::hgroup::h_group_convention_set::HGroupConventionSet;
use eel::engine::convention::hgroup::signal::Signal;
use eel::engine::dummy_action_selection_strategy::DummyActionSelectionStrategy;
use eel::engine::evaluator::{
    actor_has_known_playable, bottom_deck_risk_terms, card_known_playable, clue_demand_terms, count_known_playable,
    count_possibilities, critical_exposure_delta, critical_exposures, critical_mask, efficiency_terms,
    empathy_precision, ignores_play_signal, known_playable_in_hands, misinformation_counts, resolved_card_count,
    resolved_touched_count, team_empathy_excluded,
};
use eel::engine::final_round::after_turn;
use eel::engine::knowledge::lightweight_player_pov::LightweightPlayerPOV;
use eel::engine::knowledge::player_knowledge::{knowledge_with_empathy, knowledge_with_visible};
use eel::engine::knowledge::team_knowledge::TeamKnowledge;
use eel::engine::knowledge_aware_game_state::KnowledgeAwareGameState;
use eel::game::action::GameAction;
use eel::game::card::CardIdentityMask;
use eel::game::static_game_data::StaticGameData;
use eel::game::table_state::TableState;
use eel::game::variant::Variant;

const R1: u8 = 0;
const R2: u8 = 1;
const R5: u8 = 4;
const Y1: u8 = 5;
const B2: u8 = 16;
const R1_MASK: u64 = 1 << R1;
const R2_MASK: u64 = 1 << R2;
const R5_MASK: u64 = 1 << R5;
const Y1_MASK: u64 = 1 << Y1;
const B2_MASK: u64 = 1 << B2;
const FIVES: u64 = (1 << 4) | (1 << 9) | (1 << 14) | (1 << 19) | (1 << 24);
const ONES: u64 = (1 << 0) | (1 << 5) | (1 << 10) | (1 << 15) | (1 << 20);

fn players(n: u8) -> StaticGameData {
    StaticGameData { number_of_players: n, variant: Variant::no_variant() }
}

#[test]
fn critical_mask_on_a_fresh_table_is_the_fives() {
    let sd = players(3);
    let ts = TableState::new(&sd);
    assert_eq!(critical_mask(&ts, &sd), FIVES);
}

#[test]
fn critical_mask_gains_an_identity_with_one_copy_left() {
    let sd = players(3);
    let mut ts = TableState::new(&sd);
    for idx in 0..2 {
        ts.update_with_draw_action(&sd, idx);
        ts.update_with_discard_action_of_specific_card(&sd, idx, R1);
    }
    assert_eq!(critical_mask(&ts, &sd), FIVES | R1_MASK);
}

#[test]
fn critical_mask_drops_an_identity_once_played() {
    let sd = players(3);
    let mut ts = TableState::new(&sd);
    ts.update_with_draw_action(&sd, 0);
    ts.update_with_discard_action_of_specific_card(&sd, 0, R2);
    ts.update_with_draw_action(&sd, 1);
    ts.update_with_play_action_of_specific_card(&sd, 1, R1);
    assert_eq!(critical_mask(&ts, &sd), FIVES | R2_MASK);
    ts.update_with_draw_action(&sd, 2);
    ts.update_with_play_action_of_specific_card(&sd, 2, R2);
    assert_eq!(critical_mask(&ts, &sd), FIVES);
}

#[test]
fn count_possibilities_counts_bits() {
    assert_eq!(count_possibilities(0), 0);
    assert_eq!(count_possibilities(0b1011), 3);
    assert_eq!(count_possibilities(u64::MAX), 64);
}

#[test]
fn max_achievable_score_stops_at_a_fully_discarded_rank() {
    let sd = players(3);
    let mut ts = TableState::new(&sd);
    assert_eq!(ts.max_achievable_score(&sd), 25);
    for idx in 0..2 {
        ts.update_with_draw_action(&sd, idx);
        ts.update_with_discard_action_of_specific_card(&sd, idx, R2);
    }
    assert_eq!(ts.max_achievable_score(&sd), 21);
}

#[test]
fn a_card_narrowed_to_playable_identities_is_known_playable() {
    let sd = players(3);
    let ts = TableState::new(&sd);
    let mut team = TeamKnowledge::new(3);
    team.player_mut(0).own_hand |= 1;
    let knowledge = knowledge_with_empathy(0, R1_MASK | Y1_MASK);
    let pov = LightweightPlayerPOV::new(0, &knowledge, &team, &ts, &sd);
    let playable = ts.playable_cards(&sd);
    assert!(card_known_playable(&pov, 0, playable));
    assert_eq!(count_known_playable(&pov, playable), 1);
    let knowledge = knowledge_with_empathy(0, R1_MASK | B2_MASK);
    let pov = LightweightPlayerPOV::new(0, &knowledge, &team, &ts, &sd);
    assert!(!card_known_playable(&pov, 0, playable));
    assert_eq!(count_known_playable(&pov, playable), 0);
}

#[test]
fn a_play_signal_makes_a_card_known_playable() {
    let sd = players(3);
    let ts = TableState::new(&sd);
    let mut team = TeamKnowledge::new(3);
    team.player_mut(0).own_hand |= 1 << 3;
    team.player_mut(0).signals[3].push(Signal::Play { card_deck_index: 3, committed_identity: R1 });
    let knowledge = team.player(0).duplicate();
    let pov = LightweightPlayerPOV::new(0, &knowledge, &team, &ts, &sd);
    assert!(card_known_playable(&pov, 3, ts.playable_cards(&sd)));
    assert!(actor_has_known_playable(0, &ts, &sd, &team));
    assert!(!actor_has_known_playable(1, &ts, &sd, &team));
}

#[test]
fn known_playable_in_hands_skips_what_truth_sees_as_unplayable() {
    let sd = players(3);
    let mut ts = TableState::new(&sd);
    ts.update_with_draw_action(&sd, 0);
    let mut team = TeamKnowledge::new(3);
    team.player_mut(0).own_hand |= 1;
    team.player_mut(0).inferred_identities[0] = Some(CardIdentityMask::from_bits(ONES));
    let blind = knowledge_with_visible(1, &[]);
    let truth = LightweightPlayerPOV::new(1, &blind, &team, &ts, &sd);
    assert_eq!(known_playable_in_hands(&ts, &sd, &team, &truth), 1);
    let seeing = knowledge_with_visible(1, &[(0, R2_MASK)]);
    let truth = LightweightPlayerPOV::new(1, &seeing, &team, &ts, &sd);
    assert_eq!(known_playable_in_hands(&ts, &sd, &team, &truth), 0);
}

#[test]
fn identity_information_sums_count_excluded_identities() {
    let sd = players(3);
    let mut ts = TableState::new(&sd);
    ts.update_with_draw_action(&sd, 0);
    ts.update_with_draw_action(&sd, 1);
    let mut team = TeamKnowledge::new(3);
    team.player_mut(0).own_hand |= 0b11;
    team.player_mut(0).inferred_identities[0] = Some(CardIdentityMask::from_bits(R1_MASK));
    team.player_mut(0).inferred_identities[1] = Some(CardIdentityMask::from_bits(R1_MASK | Y1_MASK));
    assert_eq!(team_empathy_excluded(&ts, &sd, &team), 24 + 23);
    assert_eq!(empathy_precision(&ts, &sd, &team), 0);
    assert_eq!(resolved_card_count(&sd, &team, &ts), 1);
    ts.clue_touched_cards |= 1;
    assert_eq!(empathy_precision(&ts, &sd, &team), 24);
}

#[test]
fn clue_demand_terms_cover_untouched_cards() {
    let sd = players(3);
    let mut ts = TableState::new(&sd);
    ts.update_with_draw_action(&sd, 0);
    ts.update_with_draw_action(&sd, 1);
    ts.clue_touched_cards |= 1 << 1;
    assert_eq!(clue_demand_terms(&ts, &sd), vec![(5, 25)]);
}

#[test]
fn misinformation_counts_report_excluded_and_partial_knowledge() {
    let sd = players(3);
    let mut ts = TableState::new(&sd);
    ts.update_with_draw_action(&sd, 0);
    let mut team = TeamKnowledge::new(3);
    team.player_mut(0).own_hand |= 1;
    team.player_mut(0).inferred_identities[0] = Some(CardIdentityMask::from_bits(Y1_MASK));
    let seeing = knowledge_with_visible(1, &[(0, R1_MASK)]);
    let truth = LightweightPlayerPOV::new(1, &seeing, &team, &ts, &sd);
    assert_eq!(misinformation_counts(&sd, &team, &truth), vec![0]);
    team.player_mut(0).inferred_identities[0] = Some(CardIdentityMask::from_bits(R1_MASK | Y1_MASK));
    let truth = LightweightPlayerPOV::new(1, &seeing, &team, &ts, &sd);
    assert_eq!(misinformation_counts(&sd, &team, &truth), vec![2]);
}

#[test]
fn bottom_deck_risk_counts_the_ranks_a_discard_exposes() {
    let sd = players(3);
    let mut ts = TableState::new(&sd);
    ts.update_with_draw_action(&sd, 0);
    let team = TeamKnowledge::new(3);
    let seeing = knowledge_with_visible(1, &[(0, R2_MASK)]);
    let truth = LightweightPlayerPOV::new(1, &seeing, &team, &ts, &sd);
    assert_eq!(bottom_deck_risk_terms(0, &ts, &sd, &truth), (1, 4));
    ts.update_with_draw_action(&sd, 1);
    ts.update_with_discard_action_of_specific_card(&sd, 1, R5);
    let truth = LightweightPlayerPOV::new(1, &seeing, &team, &ts, &sd);
    assert_eq!(bottom_deck_risk_terms(0, &ts, &sd, &truth), (1, 3));
}

#[test]
fn bottom_deck_risk_is_nil_when_another_hand_holds_the_copy() {
    let sd = players(3);
    let mut ts = TableState::new(&sd);
    ts.update_with_draw_action(&sd, 0);
    ts.active_player_index = 2;
    ts.update_with_draw_action(&sd, 1);
    let team = TeamKnowledge::new(3);
    let seeing = knowledge_with_visible(1, &[(0, R2_MASK), (1, R2_MASK)]);
    let truth = LightweightPlayerPOV::new(1, &seeing, &team, &ts, &sd);
    assert_eq!(bottom_deck_risk_terms(0, &ts, &sd, &truth), (1, 0));
}

#[test]
fn an_unbuffered_critical_chop_is_exposed_at_rank_zero() {
    let sd = players(3);
    let mut ts = TableState::new(&sd);
    ts.active_player_index = 1;
    ts.update_with_draw_action(&sd, 10);
    ts.update_with_draw_action(&sd, 11);
    let team = TeamKnowledge::new(3);
    let seeing = knowledge_with_visible(0, &[(10, R5_MASK), (11, R2_MASK)]);
    let truth = LightweightPlayerPOV::new(0, &seeing, &team, &ts, &sd);
    assert_eq!(critical_exposures(&ts, &sd, &team, &truth), vec![(0, 0)]);
}

#[test]
fn ignoring_a_blind_play_signal_is_detected() {
    let sd = players(3);
    let ts = TableState::new(&sd);
    let mut team = TeamKnowledge::new(3);
    team.player_mut(0).own_hand |= 1 << 3;
    let discard = GameAction::Discard { player_index: 0, card_deck_index: 7, turn: 0 };
    let play = GameAction::Play { player_index: 0, card_deck_index: 3, turn: 0 };
    assert!(!ignores_play_signal(&discard, 0, &team, &ts));
    team.player_mut(0).signals[3].push(Signal::Play { card_deck_index: 3, committed_identity: R1 });
    assert!(ignores_play_signal(&discard, 0, &team, &ts));
    assert!(!ignores_play_signal(&play, 0, &team, &ts));
    let _ = sd;
}

#[test]
fn resolved_touched_count_counts_exactly_known_cards() {
    let sd = players(3);
    let ts = TableState::new(&sd);
    let mut team = TeamKnowledge::new(3);
    team.player_mut(1).own_hand |= (1 << 10) | (1 << 11);
    team.player_mut(1).inferred_identities[10] = Some(CardIdentityMask::from_bits(R1_MASK));
    team.player_mut(1).inferred_identities[11] = Some(CardIdentityMask::from_bits(ONES));
    assert_eq!(resolved_touched_count(&[10, 11], 1, &sd, &team, &ts), 1);
}

fn state_with_critical_chop() -> KnowledgeAwareGameState {
    let mut state = KnowledgeAwareGameState::new(players(3));
    state.table_state.active_player_index = 1;
    state.update_with_draw_action_of_specific_card(1, 10, R5);
    state.table_state.active_player_index = 0;
    state
}

#[test]
fn saving_a_critical_chop_scores_plus_one_and_skipping_it_minus_one() {
    let pre = state_with_critical_chop();
    let knowledge = pre.team_knowledge.player(0).duplicate();
    let team = pre.team_knowledge.duplicate();
    let table = pre.table_state.duplicate();
    let sd = pre.static_data().clone();
    let truth = LightweightPlayerPOV::new(0, &knowledge, &team, &table, &sd);
    let mut saved = state_with_critical_chop();
    saved.table_state.clue_touched_cards |= 1 << 10;
    assert_eq!(critical_exposure_delta(0, &pre, &saved, &truth), 1);
    let skipped = state_with_critical_chop();
    assert_eq!(critical_exposure_delta(0, &pre, &skipped, &truth), -1);
    assert_eq!(critical_exposure_delta(1, &pre, &skipped, &truth), 0);
}

#[test]
fn efficiency_terms_on_a_fresh_game() {
    let state = KnowledgeAwareGameState::new(players(3));
    assert_eq!(efficiency_terms(&state), (25, 25, 25));
}

#[test]
fn the_final_round_gives_each_player_one_last_turn() {
    assert_eq!(after_turn(None, 5, 3), (None, true));
    assert_eq!(after_turn(None, 0, 3), (Some(1), true));
    assert_eq!(after_turn(Some(1), 0, 3), (Some(0), true));
    assert_eq!(after_turn(Some(0), 0, 3), (Some(0), false));
    let mut counter = None;
    let mut turns = 1;
    loop {
        let (next, go_on) = after_turn(counter, 0, 4);
        counter = next;
        if !go_on {
            break;
        }
        turns += 1;
    }
    assert_eq!(turns, 4);
}

#[test]
fn dummy_strategy_plays_with_a_full_bank_and_discards_otherwise() {
    let sd = players(3);
    let mut ts = TableState::new(&sd);
    ts.current_turn = 4;
    ts.active_player_index = 2;
    let team = TeamKnowledge::new(3);
    let knowledge = team.player(2).duplicate();
    let conventions = HGroupConventionSet::new(vec![]);
    let pov = LightweightPlayerPOV::new(2, &knowledge, &team, &ts, &sd);
    assert_eq!(
        DummyActionSelectionStrategy {}.select_active_player_action(&pov, &conventions),
        GameAction::Play { player_index: 2, card_deck_index: 0, turn: 4 }
    );
    ts.clue_tokens = 7;
    let pov = LightweightPlayerPOV::new(2, &knowledge, &team, &ts, &sd);
    assert_eq!(
        DummyActionSelectionStrategy {}.select_active_player_action(&pov, &conventions),
        GameAction::Discard { player_index: 2, card_deck_index: 0, turn: 4 }
    );
}

#[test]
fn a_shuffled_deck_holds_every_copy_once() {
    let variant = Variant::no_variant();
    let mut rng = rand::rngs::SmallRng::seed_from_u64(42);
    let deck = eel::engine::self_play::shuffled_deck(&variant, &mut rng);
    assert_eq!(deck.len(), 50);
    for id in 0..25u8 {
        let expected = variant.card_copies_count_by_id[id as usize] as usize;
        assert_eq!(deck.iter().filter(|&&c| c == id).count(), expected, "copies of {id}");
    }
    let mut rng = rand::rngs::SmallRng::seed_from_u64(42);
    assert_eq!(eel::engine::self_play::shuffled_deck(&variant, &mut rng), deck);
}
