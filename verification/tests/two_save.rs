#![allow(dead_code)]
use eel::engine::convention::convention_tech::ConventionTech;
use eel::engine::game_state_snapshot::GameStateSnapshot;
use eel::engine::knowledge::knowledge_update::KnowledgeUpdate;
use eel::engine::knowledge::lightweight_player_pov::LightweightPlayerPOV;
use eel::engine::knowledge::player_knowledge::{knowledge_with_visible, PlayerKnowledge};
use eel::engine::knowledge::team_knowledge::TeamKnowledge;
use eel::game::action::{GameAction, TouchedCards};
use eel::game::card::CardIdentityMask;
use eel::game::clue::{Clue, ClueType};
use eel::game::static_game_data::StaticGameData;
use eel::game::table_state::TableState;
use eel::game::variant::Variant;

const R1: u8 = 0;
const R2: u8 = 1;
const R3: u8 = 2;
const Y1: u8 = 5;
const Y2: u8 = 6;
const G1: u8 = 10;
const G2: u8 = 11;
const B1: u8 = 15;
const B2: u8 = 16;
const P1: u8 = 20;
const P2: u8 = 21;
const P3: u8 = 22;
const R1_MASK: u64 = 1 << R1;
const R2_MASK: u64 = 1 << R2;
const R3_MASK: u64 = 1 << R3;
const Y1_MASK: u64 = 1 << Y1;
const Y2_MASK: u64 = 1 << Y2;
const G1_MASK: u64 = 1 << G1;
const G2_MASK: u64 = 1 << G2;
const B1_MASK: u64 = 1 << B1;
const B2_MASK: u64 = 1 << B2;
const P1_MASK: u64 = 1 << P1;
const P2_MASK: u64 = 1 << P2;
const P3_MASK: u64 = 1 << P3;
const R4: u8 = 3;
const R5: u8 = 4;
const R4_MASK: u64 = 1 << R4;
const R5_MASK: u64 = 1 << R5;
const Y5: u8 = 9;
const Y5_MASK: u64 = 1 << Y5;


fn five_players() -> StaticGameData {
    StaticGameData { number_of_players: 5, variant: Variant::no_variant() }
}

fn draw(ts: &mut TableState, sd: &StaticGameData, idx: u8) {
    ts.update_with_draw_action(sd, idx);
}


const RANK_2_CLUE: Clue = Clue { clue_type: ClueType::Rank, clue_value: 2 };

fn clue_of(player_index: usize, t: &[u8], clue: Clue, turn: usize) -> GameAction {
    GameAction::Clue { player_index, touched_card_deck_indexes: TouchedCards::from_indexes(t.to_vec()), clue, turn }
}

#[test]
fn generates_clue_when_chop_is_a_non_playable_2() {
    let sd = five_players();
    let mut ts = TableState::new(&sd);
    ts.active_player_index = 1;
    ts.current_turn = 2;
    draw(&mut ts, &sd, 10);
    ts.active_player_index = 0;
    let knowledge = knowledge_with_visible(0, &[(10, R2_MASK)]);
    let team = TeamKnowledge::new(5);
    let pov = LightweightPlayerPOV::new(0, &knowledge, &team, &ts, &sd);
    assert_eq!(ConventionTech::TwoSave.game_actions(&pov), vec![clue_of(1, &[10], RANK_2_CLUE, 2)]);
}

#[test]
fn returns_empty_when_chop_2_is_immediately_playable() {
    let sd = five_players();
    let mut ts = TableState::new(&sd);
    ts.update_with_play_action_of_specific_card(&sd, 0, R1);
    ts.active_player_index = 1;
    draw(&mut ts, &sd, 10);
    ts.active_player_index = 0;
    let knowledge = knowledge_with_visible(0, &[(10, R2_MASK)]);
    let team = TeamKnowledge::new(5);
    let pov = LightweightPlayerPOV::new(0, &knowledge, &team, &ts, &sd);
    assert!(ConventionTech::TwoSave.game_actions(&pov).is_empty());
}

#[test]
fn returns_empty_when_chop_is_not_a_2() {
    let sd = five_players();
    let mut ts = TableState::new(&sd);
    ts.active_player_index = 1;
    draw(&mut ts, &sd, 10);
    ts.active_player_index = 0;
    let knowledge = knowledge_with_visible(0, &[(10, R3_MASK)]);
    let team = TeamKnowledge::new(5);
    let pov = LightweightPlayerPOV::new(0, &knowledge, &team, &ts, &sd);
    assert!(ConventionTech::TwoSave.game_actions(&pov).is_empty());
}

#[test]
fn returns_empty_when_another_player_has_copy_not_on_chop() {
    let sd = five_players();
    let mut ts = TableState::new(&sd);
    ts.active_player_index = 1;
    draw(&mut ts, &sd, 10);
    ts.active_player_index = 2;
    draw(&mut ts, &sd, 20);
    draw(&mut ts, &sd, 30);
    ts.active_player_index = 0;
    let knowledge = knowledge_with_visible(0, &[(10, R2_MASK), (20, Y1_MASK), (30, R2_MASK)]);
    let team = TeamKnowledge::new(5);
    let pov = LightweightPlayerPOV::new(0, &knowledge, &team, &ts, &sd);
    assert!(ConventionTech::TwoSave.game_actions(&pov).is_empty());
}

#[test]
fn touches_all_2s_in_hand_when_cluing() {
    let sd = five_players();
    let mut ts = TableState::new(&sd);
    ts.active_player_index = 1;
    draw(&mut ts, &sd, 10);
    draw(&mut ts, &sd, 20);
    ts.active_player_index = 0;
    let knowledge = knowledge_with_visible(0, &[(10, R2_MASK), (20, Y2_MASK)]);
    let team = TeamKnowledge::new(5);
    let pov = LightweightPlayerPOV::new(0, &knowledge, &team, &ts, &sd);
    let actions = ConventionTech::TwoSave.game_actions(&pov);
    assert_eq!(actions.len(), 1);
    let touched = match &actions[0] {
        GameAction::Clue { touched_card_deck_indexes, .. } => touched_card_deck_indexes,
        _ => panic!(),
    };
    assert!(touched.as_slice().contains(&10));
    assert!(touched.as_slice().contains(&20));
}

#[test]
fn matches_action_true_when_chop_is_saveable_2() {
    let sd = five_players();
    let mut ts = TableState::new(&sd);
    ts.active_player_index = 1;
    draw(&mut ts, &sd, 10);
    ts.active_player_index = 0;
    let knowledge = knowledge_with_visible(0, &[(10, R2_MASK)]);
    let mut team = TeamKnowledge::new(5);
    team.player_mut(0).inferred_identities[10] = Some(CardIdentityMask::from_bits(R2_MASK));
    team.player_mut(0).visible_cards |= 1 << 10;
    let snapshot = GameStateSnapshot::new(ts.duplicate(), team.duplicate());
    let pov = LightweightPlayerPOV::new(0, &knowledge, &team, &ts, &sd);
    assert!(ConventionTech::TwoSave.matches_action(&clue_of(1, &[10], RANK_2_CLUE, 0), &[snapshot], &pov));
}

#[test]
fn matches_action_false_when_chop_2_is_playable() {
    let sd = five_players();
    let mut ts = TableState::new(&sd);
    ts.update_with_play_action_of_specific_card(&sd, 0, R1);
    ts.active_player_index = 1;
    draw(&mut ts, &sd, 10);
    ts.active_player_index = 0;
    let knowledge = knowledge_with_visible(0, &[(10, R2_MASK)]);
    let team = TeamKnowledge::new(5);
    let snapshot = GameStateSnapshot::new(ts.duplicate(), team.duplicate());
    let pov = LightweightPlayerPOV::new(0, &knowledge, &team, &ts, &sd);
    assert!(!ConventionTech::TwoSave.matches_action(&clue_of(1, &[10], RANK_2_CLUE, 0), &[snapshot], &pov));
}

#[test]
fn two_save_matches_action_false_for_non_clue_action() {
    let sd = five_players();
    let ts = TableState::new(&sd);
    let knowledge = PlayerKnowledge::new(0);
    let team = TeamKnowledge::new(5);
    let pov = LightweightPlayerPOV::new(0, &knowledge, &team, &ts, &sd);
    assert!(!ConventionTech::TwoSave.matches_action(&GameAction::Play { player_index: 0, card_deck_index: 5, turn: 2 }, &[], &pov));
}

#[test]
fn knowledge_updates_narrows_focus_to_non_playable_rank_2s() {
    let sd = five_players();
    let mut ts = TableState::new(&sd);
    draw(&mut ts, &sd, 10);
    let team = TeamKnowledge::new(5);
    let snapshot = GameStateSnapshot::new(ts.duplicate(), team.duplicate());
    ts.clue_touched_cards |= 1 << 10;
    let knowledge = knowledge_with_visible(0, &[]);
    let pov = LightweightPlayerPOV::new(0, &knowledge, &team, &ts, &sd);
    let updates = ConventionTech::TwoSave.knowledge_updates(&clue_of(0, &[10], RANK_2_CLUE, 0), &[snapshot], &pov);
    assert_eq!(updates.immediate.len(), 1);
    if let KnowledgeUpdate::NarrowPossibilities { card_deck_index, mask } = &updates.immediate[0] {
        assert_eq!(*card_deck_index, 10);
        assert!(mask & R2_MASK != 0);
        assert!(mask & Y2_MASK != 0);
        assert!(mask & R1_MASK == 0);
    } else {
        panic!("expected NarrowPossibilities");
    }
}

#[test]
fn knowledge_updates_excludes_playable_2s_from_mask() {
    let sd = five_players();
    let mut ts = TableState::new(&sd);
    ts.update_with_play_action_of_specific_card(&sd, 0, R1);
    ts.active_player_index = 0;
    draw(&mut ts, &sd, 10);
    let team = TeamKnowledge::new(5);
    let snapshot = GameStateSnapshot::new(ts.duplicate(), team.duplicate());
    ts.clue_touched_cards |= 1 << 10;
    let knowledge = knowledge_with_visible(0, &[]);
    let pov = LightweightPlayerPOV::new(0, &knowledge, &team, &ts, &sd);
    let updates = ConventionTech::TwoSave.knowledge_updates(&clue_of(0, &[10], RANK_2_CLUE, 0), &[snapshot], &pov);
    assert_eq!(updates.immediate.len(), 1);
    if let KnowledgeUpdate::NarrowPossibilities { mask, .. } = &updates.immediate[0] {
        assert!(mask & R2_MASK == 0, "R2 is playable, must not be in mask");
        assert!(mask & Y2_MASK != 0, "Y2 is still 1-away, must be in mask");
    } else {
        panic!("expected NarrowPossibilities");
    }
}

#[test]
fn two_save_knowledge_updates_returns_empty_when_no_touched_cards() {
    let sd = five_players();
    let mut ts = TableState::new(&sd);
    draw(&mut ts, &sd, 10);
    let knowledge = knowledge_with_visible(0, &[]);
    let team = TeamKnowledge::new(5);
    let snapshot = GameStateSnapshot::new(ts.duplicate(), team.duplicate());
    let pov = LightweightPlayerPOV::new(0, &knowledge, &team, &ts, &sd);
    assert!(ConventionTech::TwoSave.knowledge_updates(&clue_of(0, &[], RANK_2_CLUE, 0), &[snapshot], &pov).is_empty());
}

#[test]
fn two_save_matches_action_false_when_history_is_empty() {
    let sd = five_players();
    let mut ts = TableState::new(&sd);
    ts.active_player_index = 1;
    draw(&mut ts, &sd, 10);
    ts.active_player_index = 0;
    let knowledge = PlayerKnowledge::new(0);
    let team = TeamKnowledge::new(5);
    let pov = LightweightPlayerPOV::new(0, &knowledge, &team, &ts, &sd);
    assert!(!ConventionTech::TwoSave.matches_action(&clue_of(1, &[10], RANK_2_CLUE, 0), &[], &pov));
}

#[test]
fn knowledge_updates_returns_empty_when_all_2s_are_playable() {
    let sd = five_players();
    let mut ts = TableState::new(&sd);
    for &card_id in &[R1, Y1, G1, B1, P1] {
        ts.update_with_play_action_of_specific_card(&sd, 0, card_id);
    }
    ts.active_player_index = 0;
    draw(&mut ts, &sd, 10);
    let team = TeamKnowledge::new(5);
    let snapshot = GameStateSnapshot::new(ts.duplicate(), team.duplicate());
    ts.clue_touched_cards |= 1 << 10;
    let knowledge = knowledge_with_visible(0, &[]);
    let pov = LightweightPlayerPOV::new(0, &knowledge, &team, &ts, &sd);
    assert!(ConventionTech::TwoSave.knowledge_updates(&clue_of(0, &[], RANK_2_CLUE, 0), &[snapshot], &pov).is_empty());
}
