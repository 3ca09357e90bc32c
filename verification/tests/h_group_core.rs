use eel::engine::convention::hgroup::h_group_core::{
    clues_for_player_with_focus, count_bad_touches, get_chop_index, get_clue_focus, good_touch_baseline_mask, has_on_finesse_position, still_needed_cards_mask,
    is_minimal_clue_value_compliant, is_potential_bad_touch,
};
use eel::engine::convention::hgroup::signal::Signal;
use eel::engine::knowledge::lightweight_player_pov::LightweightPlayerPOV;
use eel::engine::knowledge::player_knowledge::{knowledge_for_hand, knowledge_with_visible, PlayerKnowledge};
use eel::engine::knowledge::team_knowledge::TeamKnowledge;
use eel::game::action::GameAction;
use eel::game::card::{CardIdentityMask, VariantCardId};
use eel::game::clue::{Clue, ClueType};
use eel::game::static_game_data::StaticGameData;
use eel::game::table_state::TableState;
use eel::game::variant::Variant;

const R1: u8 = 0;
const R2: u8 = 1;
const R3: u8 = 2;
const Y1: u8 = 5;
const P1: u8 = 20;
const R1_MASK: u64 = 1 << R1;
const R2_MASK: u64 = 1 << R2;
const R3_MASK: u64 = 1 << R3;

fn five_players() -> StaticGameData {
    StaticGameData { number_of_players: 5, variant: Variant::no_variant() }
}

fn draw(ts: &mut TableState, sd: &StaticGameData, idx: u8) {
    ts.update_with_draw_action(sd, idx);
}

fn set_identity(ts: &mut TableState, idx: u8, id: u8) {
    ts.deck_empathy[idx as usize] = 1u64 << id;
}

fn make_truth_pov<'a>(
    knowledge: &'a PlayerKnowledge,
    team_knowledge: &'a TeamKnowledge,
    table_state: &'a TableState,
    static_data: &'a StaticGameData,
) -> LightweightPlayerPOV<'a> {
    LightweightPlayerPOV::new(0, knowledge, team_knowledge, table_state, static_data)
}

#[test]
fn chop_is_oldest_card_when_all_unclued() {
    let sd = five_players();
    let mut ts = TableState::new(&sd);
    for &idx in &[10u8, 20, 30] {
        draw(&mut ts, &sd, idx);
    }
    let knowledge = knowledge_for_hand(&[10, 20, 30]);
    let team = TeamKnowledge::new(5);
    let pov = LightweightPlayerPOV::new(0, &knowledge, &team, &ts, &sd);
    assert_eq!(get_chop_index(0, &pov), Some(10));
}

#[test]
fn chop_skips_clued_cards() {
    let sd = five_players();
    let mut ts = TableState::new(&sd);
    for &idx in &[10u8, 20, 30] {
        draw(&mut ts, &sd, idx);
    }
    ts.clue_touched_cards |= 1 << 10;
    let knowledge = knowledge_for_hand(&[10, 20, 30]);
    let team = TeamKnowledge::new(5);
    let pov = LightweightPlayerPOV::new(0, &knowledge, &team, &ts, &sd);
    assert_eq!(get_chop_index(0, &pov), Some(20));
}

#[test]
fn chop_is_none_when_all_cards_are_clued() {
    let sd = five_players();
    let mut ts = TableState::new(&sd);
    for &idx in &[10u8, 20] {
        draw(&mut ts, &sd, idx);
    }
    ts.clue_touched_cards |= (1 << 10) | (1 << 20);
    let knowledge = knowledge_for_hand(&[10, 20]);
    let team = TeamKnowledge::new(5);
    let pov = LightweightPlayerPOV::new(0, &knowledge, &team, &ts, &sd);
    assert_eq!(get_chop_index(0, &pov), None);
}

#[test]
fn focus_is_chop_when_chop_is_touched() {
    let sd = five_players();
    let mut ts = TableState::new(&sd);
    for &idx in &[10u8, 20, 30] {
        draw(&mut ts, &sd, idx);
    }
    let knowledge = knowledge_for_hand(&[10, 20, 30]);
    let team = TeamKnowledge::new(5);
    let pov = LightweightPlayerPOV::new(0, &knowledge, &team, &ts, &sd);
    assert_eq!(get_clue_focus(0, &[10, 30], &pov), Some(10));
}

#[test]
fn focus_is_newest_newly_touched_card_when_chop_not_touched() {
    let sd = five_players();
    let mut ts = TableState::new(&sd);
    for &idx in &[10u8, 20, 30, 40, 50] {
        draw(&mut ts, &sd, idx);
    }
    let knowledge = knowledge_for_hand(&[10, 20, 30, 40, 50]);
    let team = TeamKnowledge::new(5);
    let pov = LightweightPlayerPOV::new(0, &knowledge, &team, &ts, &sd);
    assert_eq!(get_clue_focus(0, &[20, 50], &pov), Some(50));
}

#[test]
fn focus_skips_already_clued_cards_when_finding_newest_new_touch() {
    let sd = five_players();
    let mut ts = TableState::new(&sd);
    for &idx in &[10u8, 20, 30, 40, 50] {
        draw(&mut ts, &sd, idx);
    }
    ts.clue_touched_cards |= 1 << 50;
    let knowledge = knowledge_for_hand(&[10, 20, 30, 40, 50]);
    let team = TeamKnowledge::new(5);
    let pov = LightweightPlayerPOV::new(0, &knowledge, &team, &ts, &sd);
    assert_eq!(get_clue_focus(0, &[20, 50], &pov), Some(20));
}

#[test]
fn focus_is_leftmost_touched_when_all_touched_cards_were_already_clued() {
    let sd = five_players();
    let mut ts = TableState::new(&sd);
    for &idx in &[10u8, 20, 30] {
        draw(&mut ts, &sd, idx);
    }
    ts.clue_touched_cards |= (1 << 20) | (1 << 30);
    let knowledge = knowledge_for_hand(&[10, 20, 30]);
    let team = TeamKnowledge::new(5);
    let pov = LightweightPlayerPOV::new(0, &knowledge, &team, &ts, &sd);
    assert_eq!(get_clue_focus(0, &[20, 30], &pov), Some(30));
}

#[test]
fn clues_for_player_returns_empty_when_no_card_identity_is_known() {
    let sd = five_players();
    let mut ts = TableState::new(&sd);
    ts.active_player_index = 1;
    draw(&mut ts, &sd, 10);
    ts.active_player_index = 0;
    let knowledge = knowledge_with_visible(0, &[]);
    let team = TeamKnowledge::new(5);
    let pov = LightweightPlayerPOV::new(0, &knowledge, &team, &ts, &sd);
    assert!(clues_for_player_with_focus(1, &pov).is_empty());
}

#[test]
fn clues_for_player_returns_one_entry_per_clue_that_touches_known_card() {
    let sd = five_players();
    let mut ts = TableState::new(&sd);
    ts.active_player_index = 1;
    draw(&mut ts, &sd, 10);
    ts.active_player_index = 0;
    let knowledge = knowledge_with_visible(0, &[(10, R1_MASK)]);
    let team = TeamKnowledge::new(5);
    let pov = LightweightPlayerPOV::new(0, &knowledge, &team, &ts, &sd);
    let result = clues_for_player_with_focus(1, &pov);
    assert_eq!(result.len(), 2);
    assert!(result.iter().all(|(_, focus)| *focus == 10));
    assert!(result
        .iter()
        .any(|(action, _)| matches!(action, GameAction::Clue { clue, .. } if clue.clue_type == ClueType::Color)));
    assert!(result
        .iter()
        .any(|(action, _)| matches!(action, GameAction::Clue { clue, .. } if clue.clue_type == ClueType::Rank)));
}

#[test]
fn clues_for_player_focus_is_chop_when_chop_is_touched() {
    let sd = five_players();
    let mut ts = TableState::new(&sd);
    ts.active_player_index = 1;
    draw(&mut ts, &sd, 10);
    draw(&mut ts, &sd, 20);
    ts.active_player_index = 0;
    let knowledge = knowledge_with_visible(0, &[(10, R2_MASK), (20, R1_MASK)]);
    let team = TeamKnowledge::new(5);
    let pov = LightweightPlayerPOV::new(0, &knowledge, &team, &ts, &sd);
    let result = clues_for_player_with_focus(1, &pov);
    let red_entry = result.iter().find(|(action, _)| {
        matches!(action, GameAction::Clue { clue, touched_card_deck_indexes, .. }
            if clue.clue_type == ClueType::Color && touched_card_deck_indexes.len() == 2)
    });
    assert_eq!(red_entry.map(|(_, f)| *f), Some(10), "red clue focus should be chop (R2)");
    let rank1_entry = result.iter().find(|(action, _)| {
        matches!(action, GameAction::Clue { clue, touched_card_deck_indexes, .. }
            if clue.clue_type == ClueType::Rank && touched_card_deck_indexes.as_slice() == &[20u8][..])
    });
    assert_eq!(rank1_entry.map(|(_, f)| *f), Some(20), "rank-1 clue focus should be R1");
}

#[test]
fn count_bad_touches_zero_when_touched_card_still_needed() {
    let sd = five_players();
    let mut ts = TableState::new(&sd);
    ts.active_player_index = 1;
    draw(&mut ts, &sd, 10);
    ts.active_player_index = 0;
    let knowledge = knowledge_for_hand(&[]);
    let team = TeamKnowledge::new(5);
    let truth = make_truth_pov(&knowledge, &team, &ts, &sd);
    assert_eq!(count_bad_touches(&[10], 1, &truth, &ts, &sd), 0);
}

#[test]
fn count_bad_touches_one_when_touched_card_identity_already_played() {
    let sd = five_players();
    let mut ts = TableState::new(&sd);
    draw(&mut ts, &sd, 0);
    ts.update_with_play_action_of_specific_card(&sd, 0, R1);
    ts.active_player_index = 1;
    draw(&mut ts, &sd, 10);
    set_identity(&mut ts, 10, R1);
    let knowledge = knowledge_for_hand(&[]);
    let team = TeamKnowledge::new(5);
    let truth = make_truth_pov(&knowledge, &team, &ts, &sd);
    assert_eq!(count_bad_touches(&[10], 1, &truth, &ts, &sd), 1);
}

#[test]
fn count_bad_touches_one_when_exact_identity_clued_in_another_hand() {
    let sd = five_players();
    let mut ts = TableState::new(&sd);
    ts.active_player_index = 2;
    draw(&mut ts, &sd, 20);
    set_identity(&mut ts, 20, R1);
    ts.clue_touched_cards |= 1 << 20;
    ts.active_player_index = 1;
    draw(&mut ts, &sd, 10);
    let knowledge = knowledge_for_hand(&[]);
    let team = TeamKnowledge::new(5);
    let truth = make_truth_pov(&knowledge, &team, &ts, &sd);
    assert_eq!(count_bad_touches(&[10], 1, &truth, &ts, &sd), 1);
}

#[test]
fn count_bad_touches_detects_trash_via_truth_pov_after_clue_narrowing() {
    let sd = five_players();
    let mut ts = TableState::new(&sd);
    for (deck_idx, card) in [(0u8, 20u8), (1, 21), (2, 22), (3, 23), (4, 24)] {
        draw(&mut ts, &sd, deck_idx);
        ts.update_with_play_action_of_specific_card(&sd, deck_idx, card);
    }
    ts.active_player_index = 1;
    draw(&mut ts, &sd, 10);
    let mut knowledge = knowledge_for_hand(&[]);
    knowledge.inferred_identities[10] = Some(CardIdentityMask::from_bits(1 << P1));
    knowledge.visible_cards |= 1 << 10;
    let team = TeamKnowledge::new(5);
    let truth = make_truth_pov(&knowledge, &team, &ts, &sd);
    assert_eq!(count_bad_touches(&[10], 1, &truth, &ts, &sd), 1, "trash P1 in receiver's hand should be flagged via truth POV");
}

#[test]
fn count_bad_touches_one_when_two_touched_cards_share_identity_in_same_hand() {
    let sd = five_players();
    let mut ts = TableState::new(&sd);
    ts.active_player_index = 1;
    draw(&mut ts, &sd, 10);
    set_identity(&mut ts, 10, R1);
    draw(&mut ts, &sd, 11);
    set_identity(&mut ts, 11, R1);
    let knowledge = knowledge_for_hand(&[]);
    let team = TeamKnowledge::new(5);
    let truth = make_truth_pov(&knowledge, &team, &ts, &sd);
    assert_eq!(
        count_bad_touches(&[10, 11], 1, &truth, &ts, &sd),
        1,
        "intra-clue duplicate identities in same hand should count as one bad touch"
    );
}

#[test]
fn count_bad_touches_one_when_identity_already_clued_in_receiver_hand() {
    let sd = five_players();
    let mut ts = TableState::new(&sd);
    ts.active_player_index = 1;
    draw(&mut ts, &sd, 10);
    set_identity(&mut ts, 10, R1);
    ts.clue_touched_cards |= 1 << 10;
    draw(&mut ts, &sd, 11);
    set_identity(&mut ts, 11, R1);
    let knowledge = knowledge_for_hand(&[]);
    let team = TeamKnowledge::new(5);
    let truth = make_truth_pov(&knowledge, &team, &ts, &sd);
    assert_eq!(count_bad_touches(&[11], 1, &truth, &ts, &sd), 1);
}

#[test]
fn count_bad_touches_one_when_identity_clued_in_other_hand_via_multi_value_clue() {
    let sd = five_players();
    let mut ts = TableState::new(&sd);
    ts.active_player_index = 2;
    draw(&mut ts, &sd, 20);
    ts.clue_touched_cards |= 1 << 20;
    ts.active_player_index = 1;
    draw(&mut ts, &sd, 10);
    let mut knowledge = knowledge_for_hand(&[]);
    let y1_mask = CardIdentityMask::from_bits(1 << Y1);
    knowledge.inferred_identities[20] = Some(y1_mask);
    knowledge.visible_cards |= 1 << 20;
    knowledge.inferred_identities[10] = Some(y1_mask);
    knowledge.visible_cards |= 1 << 10;
    let team = TeamKnowledge::new(5);
    let truth = make_truth_pov(&knowledge, &team, &ts, &sd);
    assert_eq!(count_bad_touches(&[10], 1, &truth, &ts, &sd), 1);
}

#[test]
fn mcvp_passes_when_at_least_one_touched_card_is_new() {
    let sd = five_players();
    let mut ts = TableState::new(&sd);
    draw(&mut ts, &sd, 10);
    draw(&mut ts, &sd, 20);
    ts.clue_touched_cards |= 1 << 10;
    let knowledge = knowledge_with_visible(0, &[]);
    let team = TeamKnowledge::new(5);
    let pov = LightweightPlayerPOV::new(0, &knowledge, &team, &ts, &sd);
    let clue = Clue { clue_type: ClueType::Rank, clue_value: 1 };
    assert!(is_minimal_clue_value_compliant(&clue, &0, &[10, 20], &pov));
}

#[test]
fn mcvp_fails_when_all_touched_cards_were_already_clued() {
    let sd = five_players();
    let mut ts = TableState::new(&sd);
    draw(&mut ts, &sd, 10);
    draw(&mut ts, &sd, 20);
    ts.clue_touched_cards |= (1 << 10) | (1 << 20);
    let knowledge = knowledge_with_visible(0, &[]);
    let team = TeamKnowledge::new(5);
    let pov = LightweightPlayerPOV::new(0, &knowledge, &team, &ts, &sd);
    let clue = Clue { clue_type: ClueType::Rank, clue_value: 1 };
    assert!(!is_minimal_clue_value_compliant(&clue, &0, &[10, 20], &pov));
}

#[test]
fn mcvp_passes_for_single_untouched_card() {
    let sd = five_players();
    let mut ts = TableState::new(&sd);
    draw(&mut ts, &sd, 10);
    let knowledge = knowledge_with_visible(0, &[]);
    let team = TeamKnowledge::new(5);
    let pov = LightweightPlayerPOV::new(0, &knowledge, &team, &ts, &sd);
    let clue = Clue { clue_type: ClueType::Color, clue_value: 0 };
    assert!(is_minimal_clue_value_compliant(&clue, &0, &[10], &pov));
}

#[test]
fn returns_true_when_finesse_position_card_matches() {
    let sd = five_players();
    let mut ts = TableState::new(&sd);
    draw(&mut ts, &sd, 10);
    draw(&mut ts, &sd, 11);
    set_identity(&mut ts, 10, R1);
    set_identity(&mut ts, 11, R2);
    let knowledge = knowledge_with_visible(0, &[(10, R1_MASK), (11, R2_MASK)]);
    let team = TeamKnowledge::new(5);
    let pov = LightweightPlayerPOV::new(0, &knowledge, &team, &ts, &sd);
    assert!(has_on_finesse_position(R2, 0, &pov));
}

#[test]
fn returns_false_when_finesse_position_card_does_not_match() {
    let sd = five_players();
    let mut ts = TableState::new(&sd);
    draw(&mut ts, &sd, 10);
    draw(&mut ts, &sd, 11);
    set_identity(&mut ts, 10, R1);
    set_identity(&mut ts, 11, R2);
    let knowledge = knowledge_with_visible(0, &[(10, R1_MASK), (11, R2_MASK)]);
    let team = TeamKnowledge::new(5);
    let pov = LightweightPlayerPOV::new(0, &knowledge, &team, &ts, &sd);
    assert!(!has_on_finesse_position(R3, 0, &pov));
}

#[test]
fn returns_false_when_all_cards_are_clued() {
    let sd = five_players();
    let mut ts = TableState::new(&sd);
    draw(&mut ts, &sd, 10);
    set_identity(&mut ts, 10, R1);
    ts.clue_touched_cards |= 1 << 10;
    let knowledge = knowledge_with_visible(0, &[(10, R1_MASK)]);
    let team = TeamKnowledge::new(5);
    let pov = LightweightPlayerPOV::new(0, &knowledge, &team, &ts, &sd);
    assert!(!has_on_finesse_position(R1, 0, &pov));
}

#[test]
fn returns_false_when_hand_is_empty() {
    let sd = five_players();
    let ts = TableState::new(&sd);
    let knowledge = knowledge_with_visible(0, &[]);
    let team = TeamKnowledge::new(5);
    let pov = LightweightPlayerPOV::new(0, &knowledge, &team, &ts, &sd);
    assert!(!has_on_finesse_position(R1, 0, &pov));
}

#[test]
fn finesse_position_is_newest_unclued_card() {
    let sd = five_players();
    let mut ts = TableState::new(&sd);
    draw(&mut ts, &sd, 10);
    draw(&mut ts, &sd, 11);
    draw(&mut ts, &sd, 12);
    set_identity(&mut ts, 10, R1);
    set_identity(&mut ts, 11, R2);
    set_identity(&mut ts, 12, R3);
    ts.clue_touched_cards |= (1 << 10) | (1 << 11);
    let knowledge = knowledge_with_visible(0, &[(10, R1_MASK), (11, R2_MASK), (12, R3_MASK)]);
    let team = TeamKnowledge::new(5);
    let pov = LightweightPlayerPOV::new(0, &knowledge, &team, &ts, &sd);
    assert!(has_on_finesse_position(R3, 0, &pov));
    assert!(!has_on_finesse_position(R2, 0, &pov));
}

fn setup_pbt(
    giver_inferred_mask: u64,
    receiver_truth: u8,
    giver_card_touched: bool,
    giver_play_signal: Option<VariantCardId>,
) -> (StaticGameData, TableState, TeamKnowledge, PlayerKnowledge) {
    let sd = five_players();
    let mut ts = TableState::new(&sd);
    ts.active_player_index = 0;
    draw(&mut ts, &sd, 5);
    if giver_card_touched {
        ts.clue_touched_cards |= 1 << 5;
    }
    ts.active_player_index = 1;
    draw(&mut ts, &sd, 10);
    set_identity(&mut ts, 10, receiver_truth);
    let mut team = TeamKnowledge::new(5);
    {
        let giver_k = team.player_mut(0);
        giver_k.own_hand |= 1 << 5;
        giver_k.inferred_identities[5] = Some(CardIdentityMask::from_bits(giver_inferred_mask));
        if let Some(id) = giver_play_signal {
            giver_k.add_signal(5, Signal::Play { card_deck_index: 5, committed_identity: id });
        }
    }
    let truth_knowledge = knowledge_for_hand(&[]);
    (sd, ts, team, truth_knowledge)
}

#[test]
fn pbt_fires_when_giver_holds_clued_singleton_matching_touched() {
    let (sd, ts, team, truth_knowledge) = setup_pbt(R1_MASK, R1, true, None);
    let truth = make_truth_pov(&truth_knowledge, &team, &ts, &sd);
    assert!(is_potential_bad_touch(&[10], 0, &truth, &ts, &sd, &team));
}

#[test]
fn pbt_fires_when_giver_holds_play_signaled_card_matching_touched() {
    let (sd, ts, team, truth_knowledge) = setup_pbt(R1_MASK, R1, false, Some(R1));
    let truth = make_truth_pov(&truth_knowledge, &team, &ts, &sd);
    assert!(is_potential_bad_touch(&[10], 0, &truth, &ts, &sd, &team));
}

#[test]
fn pbt_does_not_fire_when_touched_id_is_trash() {
    let sd = five_players();
    let mut ts = TableState::new(&sd);
    draw(&mut ts, &sd, 0);
    ts.update_with_play_action_of_specific_card(&sd, 0, R1);
    ts.active_player_index = 0;
    draw(&mut ts, &sd, 5);
    ts.clue_touched_cards |= 1 << 5;
    ts.active_player_index = 1;
    draw(&mut ts, &sd, 10);
    set_identity(&mut ts, 10, R1);
    let mut team = TeamKnowledge::new(5);
    {
        let giver_k = team.player_mut(0);
        giver_k.own_hand |= 1 << 5;
        giver_k.inferred_identities[5] = Some(CardIdentityMask::from_bits(R1_MASK));
    }
    let truth_knowledge = knowledge_for_hand(&[]);
    let truth = make_truth_pov(&truth_knowledge, &team, &ts, &sd);
    assert!(!is_potential_bad_touch(&[10], 0, &truth, &ts, &sd, &team));
}

#[test]
fn pbt_does_not_fire_when_giver_hand_unclued_and_unsignaled() {
    let (sd, ts, team, truth_knowledge) = setup_pbt(R1_MASK, R1, false, None);
    let truth = make_truth_pov(&truth_knowledge, &team, &ts, &sd);
    assert!(!is_potential_bad_touch(&[10], 0, &truth, &ts, &sd, &team));
}

#[test]
fn pbt_does_not_fire_when_no_overlap_between_masks() {
    let (sd, ts, team, truth_knowledge) = setup_pbt(R1_MASK, Y1, true, None);
    let truth = make_truth_pov(&truth_knowledge, &team, &ts, &sd);
    assert!(!is_potential_bad_touch(&[10], 0, &truth, &ts, &sd, &team));
}

#[test]
fn good_touch_baseline_ignores_the_receivers_own_clued_cards() {
    let sd = StaticGameData { number_of_players: 2, variant: Variant::no_variant() };
    let mut ts = TableState::new(&sd);
    ts.active_player_index = 0;
    draw(&mut ts, &sd, 0);
    set_identity(&mut ts, 0, R1);
    ts.active_player_index = 1;
    draw(&mut ts, &sd, 1);
    set_identity(&mut ts, 1, R1);
    ts.clue_touched_cards = 1 << 1;
    let clue = Clue { clue_type: ClueType::Rank, clue_value: 1 };
    let before = good_touch_baseline_mask(&clue, 0, &ts, &sd);
    ts.clue_touched_cards |= 1 << 0;
    let after = good_touch_baseline_mask(&clue, 0, &ts, &sd);
    assert_eq!(before, after);
    assert_eq!(before.map(|m| m & R1_MASK), Some(0));
    assert_eq!(before.map(|m| m & (1 << Y1)), Some(1 << Y1));
}

#[test]
fn the_still_needed_set_only_shrinks_as_cards_are_played_and_discarded() {
    let sd = StaticGameData { number_of_players: 2, variant: Variant::no_variant() };
    let mut ts = TableState::new(&sd);
    for idx in 0..4u8 {
        draw(&mut ts, &sd, idx);
    }
    let mut before = still_needed_cards_mask(&ts, &sd);
    assert_eq!(before, (1u64 << 25) - 1);
    // Play R1, then discard the only R5, then one of three Y1.
    let steps: [(bool, u8, u8); 3] = [(true, 0, R1), (false, 1, 4), (false, 2, Y1)];
    for (play, idx, id) in steps {
        if play {
            ts.update_with_play_action_of_specific_card(&sd, idx, id);
        } else {
            ts.update_with_discard_action_of_specific_card(&sd, idx, id);
        }
        let after = still_needed_cards_mask(&ts, &sd);
        assert_eq!(after & !before, 0);
        before = after;
    }
    assert_eq!(before & R1_MASK, 0);
    assert_eq!(before & (1 << 4), 0);
    assert_ne!(before & (1 << Y1), 0);
}
