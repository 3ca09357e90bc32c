#![allow(dead_code)]
use eel::engine::convention::hgroup::tech::five_stall::FiveStall;
use eel::engine::game_state_snapshot::GameStateSnapshot;
use eel::engine::knowledge::lightweight_player_pov::LightweightPlayerPOV;
use eel::engine::knowledge::player_knowledge::knowledge_with_visible;
use eel::engine::knowledge::team_knowledge::TeamKnowledge;
use eel::game::action::{GameAction, TouchedCards};
use eel::game::card::CardIdentityMask;
use eel::game::clue::{Clue, ClueType};
use eel::game::static_game_data::StaticGameData;
use eel::game::table_state::TableState;
use eel::game::variant::Variant;

const R1: u8 = 0;
const R2: u8 = 1;
const R3: u8 = 2;
const Y1: u8 = 5;
const Y2: u8 = 6;
const G1: u8 = 10;
const G2: u8 = 11;
const B1: u8 = 15;
const B2: u8 = 16;
const P1: u8 = 20;
const P2: u8 = 21;
const P3: u8 = 22;
const R1_MASK: u64 = 1 << R1;
const R2_MASK: u64 = 1 << R2;
const R3_MASK: u64 = 1 << R3;
const Y1_MASK: u64 = 1 << Y1;
const Y2_MASK: u64 = 1 << Y2;
const G1_MASK: u64 = 1 << G1;
const G2_MASK: u64 = 1 << G2;
const B1_MASK: u64 = 1 << B1;
const B2_MASK: u64 = 1 << B2;
const P1_MASK: u64 = 1 << P1;
const P2_MASK: u64 = 1 << P2;
const P3_MASK: u64 = 1 << P3;
const R4: u8 = 3;
const R5: u8 = 4;
const R4_MASK: u64 = 1 << R4;
const R5_MASK: u64 = 1 << R5;
const Y5: u8 = 9;
const Y5_MASK: u64 = 1 << Y5;


fn five_players() -> StaticGameData {
    StaticGameData { number_of_players: 5, variant: Variant::no_variant() }
}

fn draw(ts: &mut TableState, sd: &StaticGameData, idx: u8) {
    ts.update_with_draw_action(sd, idx);
}


fn rank_clue(player_index: usize, t: &[u8], value: u8, turn: usize) -> GameAction {
    GameAction::Clue {
        player_index,
        touched_card_deck_indexes: TouchedCards::from_indexes(t.to_vec()),
        clue: Clue { clue_type: ClueType::Rank, clue_value: value },
        turn,
    }
}

#[test]
fn five_stall_clues_rank5_to_teammate_holding_a_5() {
    let sd = five_players();
    let mut ts = TableState::new(&sd);
    ts.clue_tokens = 1;
    ts.current_turn = 3;
    ts.active_player_index = 1;
    draw(&mut ts, &sd, 10);
    ts.active_player_index = 0;
    let knowledge = knowledge_with_visible(0, &[(10, R5_MASK)]);
    let team = TeamKnowledge::new(5);
    let pov = LightweightPlayerPOV::new(0, &knowledge, &team, &ts, &sd);
    assert_eq!(FiveStall.game_actions(&pov), vec![rank_clue(1, &[10], 5, 3)]);
}

#[test]
fn five_stall_rank5_clue_touches_all_fives_in_hand() {
    let sd = five_players();
    let mut ts = TableState::new(&sd);
    ts.clue_tokens = 1;
    ts.current_turn = 4;
    ts.active_player_index = 1;
    draw(&mut ts, &sd, 10);
    draw(&mut ts, &sd, 20);
    ts.active_player_index = 0;
    let knowledge = knowledge_with_visible(0, &[(10, R5_MASK), (20, Y5_MASK)]);
    let team = TeamKnowledge::new(5);
    let pov = LightweightPlayerPOV::new(0, &knowledge, &team, &ts, &sd);
    let actions = FiveStall.game_actions(&pov);
    assert_eq!(actions.len(), 1);
    let touched = match &actions[0] {
        GameAction::Clue { touched_card_deck_indexes, .. } => touched_card_deck_indexes,
        _ => panic!("expected clue"),
    };
    assert!(touched.as_slice().contains(&10));
    assert!(touched.as_slice().contains(&20));
}

#[test]
fn returns_empty_when_no_clue_tokens() {
    let sd = five_players();
    let mut ts = TableState::new(&sd);
    ts.clue_tokens = 0;
    ts.current_turn = 5;
    ts.active_player_index = 1;
    draw(&mut ts, &sd, 10);
    ts.active_player_index = 0;
    let knowledge = knowledge_with_visible(0, &[(10, R5_MASK)]);
    let team = TeamKnowledge::new(5);
    let pov = LightweightPlayerPOV::new(0, &knowledge, &team, &ts, &sd);
    assert!(FiveStall.game_actions(&pov).is_empty());
}

#[test]
fn returns_empty_when_no_visible_5s() {
    let sd = five_players();
    let mut ts = TableState::new(&sd);
    ts.clue_tokens = 1;
    ts.current_turn = 6;
    let knowledge = knowledge_with_visible(0, &[]);
    let team = TeamKnowledge::new(5);
    let pov = LightweightPlayerPOV::new(0, &knowledge, &team, &ts, &sd);
    assert!(FiveStall.game_actions(&pov).is_empty());
}

#[test]
fn matches_action_true_when_rank5_clue_and_actor_had_a_five() {
    let sd = five_players();
    let mut ts = TableState::new(&sd);
    ts.clue_tokens = 1;
    ts.current_turn = 1;
    ts.active_player_index = 1;
    draw(&mut ts, &sd, 10);
    ts.active_player_index = 0;
    let knowledge = knowledge_with_visible(0, &[(10, R5_MASK)]);
    let mut snap_team = TeamKnowledge::new(5);
    snap_team.player_mut(0).visible_cards |= 1 << 10;
    snap_team.player_mut(0).inferred_identities[10] = Some(CardIdentityMask::from_bits(R5_MASK));
    snap_team.player_mut(1).own_hand |= 1 << 10;
    let snapshot = GameStateSnapshot::new(ts.duplicate(), snap_team);
    let team = TeamKnowledge::new(5);
    let pov = LightweightPlayerPOV::new(0, &knowledge, &team, &ts, &sd);
    assert!(FiveStall.matches_action(&rank_clue(1, &[10], 5, 1), &[snapshot], &pov));
}

#[test]
fn matches_action_false_when_not_rank5_clue() {
    let sd = five_players();
    let mut ts = TableState::new(&sd);
    ts.clue_tokens = 1;
    ts.current_turn = 3;
    ts.active_player_index = 1;
    draw(&mut ts, &sd, 10);
    ts.active_player_index = 0;
    let knowledge = knowledge_with_visible(0, &[(10, R5_MASK)]);
    let team = TeamKnowledge::new(5);
    let snapshot = GameStateSnapshot::new(ts.duplicate(), team.duplicate());
    let pov = LightweightPlayerPOV::new(0, &knowledge, &team, &ts, &sd);
    assert!(!FiveStall.matches_action(&rank_clue(1, &[10], 4, 1), &[snapshot], &pov));
}

#[test]
fn matches_action_false_when_actor_had_no_five_to_stall_with() {
    let sd = five_players();
    let mut ts = TableState::new(&sd);
    ts.clue_tokens = 1;
    ts.current_turn = 3;
    ts.active_player_index = 0;
    let knowledge = knowledge_with_visible(0, &[]);
    let team = TeamKnowledge::new(5);
    let snapshot = GameStateSnapshot::new(ts.duplicate(), team.duplicate());
    let pov = LightweightPlayerPOV::new(0, &knowledge, &team, &ts, &sd);
    assert!(!FiveStall.matches_action(&rank_clue(1, &[], 5, 1), &[snapshot], &pov));
}

#[test]
fn matches_action_false_when_history_too_short() {
    let sd = five_players();
    let ts = TableState::new(&sd);
    let knowledge = knowledge_with_visible(0, &[]);
    let team = TeamKnowledge::new(5);
    let pov = LightweightPlayerPOV::new(0, &knowledge, &team, &ts, &sd);
    let snap = GameStateSnapshot::new(ts.duplicate(), team.duplicate());
    assert!(!FiveStall.matches_action(&rank_clue(1, &[10], 5, 5), &[snap], &pov));
}

#[test]
fn five_stall_matches_action_false_for_non_clue_action() {
    let sd = five_players();
    let ts = TableState::new(&sd);
    let knowledge = knowledge_with_visible(0, &[]);
    let team = TeamKnowledge::new(5);
    let pov = LightweightPlayerPOV::new(0, &knowledge, &team, &ts, &sd);
    assert!(!FiveStall.matches_action(&GameAction::Play { player_index: 0, card_deck_index: 5, turn: 1 }, &[], &pov));
}
