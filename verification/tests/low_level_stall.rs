#![allow(dead_code)]
use eel::engine::convention::hgroup::tech::low_level_stall::LowLevelStall;
use eel::engine::knowledge::lightweight_player_pov::LightweightPlayerPOV;
use eel::engine::knowledge::player_knowledge::knowledge_with_visible;
use eel::engine::knowledge::team_knowledge::TeamKnowledge;
use eel::game::action::{GameAction, TouchedCards};
use eel::game::clue::{Clue, ClueType};
use eel::game::static_game_data::StaticGameData;
use eel::game::table_state::TableState;
use eel::game::variant::Variant;

const R1: u8 = 0;
const R2: u8 = 1;
const R3: u8 = 2;
const Y1: u8 = 5;
const Y2: u8 = 6;
const G1: u8 = 10;
const G2: u8 = 11;
const B1: u8 = 15;
const B2: u8 = 16;
const P1: u8 = 20;
const P2: u8 = 21;
const P3: u8 = 22;
const R1_MASK: u64 = 1 << R1;
const R2_MASK: u64 = 1 << R2;
const R3_MASK: u64 = 1 << R3;
const Y1_MASK: u64 = 1 << Y1;
const Y2_MASK: u64 = 1 << Y2;
const G1_MASK: u64 = 1 << G1;
const G2_MASK: u64 = 1 << G2;
const B1_MASK: u64 = 1 << B1;
const B2_MASK: u64 = 1 << B2;
const P1_MASK: u64 = 1 << P1;
const P2_MASK: u64 = 1 << P2;
const P3_MASK: u64 = 1 << P3;
const R4: u8 = 3;
const R5: u8 = 4;
const R4_MASK: u64 = 1 << R4;
const R5_MASK: u64 = 1 << R5;
const Y5: u8 = 9;
const Y5_MASK: u64 = 1 << Y5;


fn five_players() -> StaticGameData {
    StaticGameData { number_of_players: 5, variant: Variant::no_variant() }
}

fn draw(ts: &mut TableState, sd: &StaticGameData, idx: u8) {
    ts.update_with_draw_action(sd, idx);
}


#[test]
fn low_level_stall_clues_rank5_to_teammate_holding_a_5() {
    let sd = five_players();
    let mut ts = TableState::new(&sd);
    ts.clue_tokens = 1;
    ts.current_turn = 3;
    ts.active_player_index = 1;
    draw(&mut ts, &sd, 10);
    ts.active_player_index = 0;
    let knowledge = knowledge_with_visible(0, &[(10, R5_MASK)]);
    let team = TeamKnowledge::new(5);
    let pov = LightweightPlayerPOV::new(0, &knowledge, &team, &ts, &sd);
    let actions = LowLevelStall.game_actions(&pov);
    assert_eq!(
        actions,
        vec![GameAction::Clue {
            player_index: 1,
            touched_card_deck_indexes: TouchedCards::from_indexes(vec![10]),
            clue: Clue { clue_type: ClueType::Rank, clue_value: 5 },
            turn: 3,
        }]
    );
}

#[test]
fn low_level_stall_rank5_clue_touches_all_fives_in_hand() {
    let sd = five_players();
    let mut ts = TableState::new(&sd);
    ts.clue_tokens = 1;
    ts.current_turn = 4;
    ts.active_player_index = 1;
    draw(&mut ts, &sd, 10);
    draw(&mut ts, &sd, 20);
    ts.active_player_index = 0;
    let knowledge = knowledge_with_visible(0, &[(10, R5_MASK), (20, Y5_MASK)]);
    let team = TeamKnowledge::new(5);
    let pov = LightweightPlayerPOV::new(0, &knowledge, &team, &ts, &sd);
    let actions = LowLevelStall.game_actions(&pov);
    assert_eq!(actions.len(), 1);
    let touched = match &actions[0] {
        GameAction::Clue { touched_card_deck_indexes, .. } => touched_card_deck_indexes,
        _ => panic!("expected clue"),
    };
    assert!(touched.as_slice().contains(&10));
    assert!(touched.as_slice().contains(&20));
}

#[test]
fn clues_rank_of_useful_chop_when_no_5_visible() {
    let sd = five_players();
    let mut ts = TableState::new(&sd);
    ts.clue_tokens = 1;
    ts.current_turn = 5;
    ts.active_player_index = 1;
    draw(&mut ts, &sd, 10);
    ts.active_player_index = 0;
    let knowledge = knowledge_with_visible(0, &[(10, Y1_MASK)]);
    let team = TeamKnowledge::new(5);
    let pov = LightweightPlayerPOV::new(0, &knowledge, &team, &ts, &sd);
    let actions = LowLevelStall.game_actions(&pov);
    assert_eq!(actions.len(), 1);
    assert!(matches!(
        &actions[0],
        GameAction::Clue { clue, .. } if clue.clue_type == ClueType::Rank && clue.clue_value == 1
    ));
}

#[test]
fn discards_slot1_when_bank_not_full_and_no_clue_target() {
    let sd = five_players();
    let mut ts = TableState::new(&sd);
    ts.clue_tokens = 3;
    ts.current_turn = 6;
    draw(&mut ts, &sd, 10);
    let knowledge = knowledge_with_visible(0, &[]);
    let team = TeamKnowledge::new(5);
    let pov = LightweightPlayerPOV::new(0, &knowledge, &team, &ts, &sd);
    let actions = LowLevelStall.game_actions(&pov);
    assert_eq!(actions, vec![GameAction::Discard { player_index: 0, card_deck_index: 10, turn: 6 }]);
}

#[test]
fn discards_newest_card_as_slot1() {
    let sd = five_players();
    let mut ts = TableState::new(&sd);
    ts.clue_tokens = 3;
    ts.current_turn = 7;
    draw(&mut ts, &sd, 10);
    draw(&mut ts, &sd, 20);
    let knowledge = knowledge_with_visible(0, &[]);
    let team = TeamKnowledge::new(5);
    let pov = LightweightPlayerPOV::new(0, &knowledge, &team, &ts, &sd);
    let actions = LowLevelStall.game_actions(&pov);
    assert_eq!(actions, vec![GameAction::Discard { player_index: 0, card_deck_index: 20, turn: 7 }]);
}

#[test]
fn plays_slot1_when_bank_is_full() {
    let sd = five_players();
    let mut ts = TableState::new(&sd);
    ts.clue_tokens = 8;
    ts.current_turn = 8;
    draw(&mut ts, &sd, 10);
    let knowledge = knowledge_with_visible(0, &[]);
    let team = TeamKnowledge::new(5);
    let pov = LightweightPlayerPOV::new(0, &knowledge, &team, &ts, &sd);
    let actions = LowLevelStall.game_actions(&pov);
    assert_eq!(actions, vec![GameAction::Play { player_index: 0, card_deck_index: 10, turn: 8 }]);
}

#[test]
fn rank_clue_value_is_the_rank_within_any_stack_size() {
    assert_eq!(LowLevelStall::rank_clue_value(6, 5), 2);
    assert_eq!(LowLevelStall::rank_clue_value(24, 5), 5);
    assert_eq!(LowLevelStall::rank_clue_value(5, 300), 6);
}
