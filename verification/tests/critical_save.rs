use eel::engine::convention::convention_tech::ConventionTech;
use eel::engine::game_state_snapshot::GameStateSnapshot;
use eel::engine::knowledge::lightweight_player_pov::LightweightPlayerPOV;
use eel::engine::knowledge::player_knowledge::{knowledge_with_visible, PlayerKnowledge};
use eel::engine::knowledge::team_knowledge::TeamKnowledge;
use eel::game::action::{GameAction, TouchedCards};
use eel::game::clue::{Clue, ClueType};
use eel::game::static_game_data::StaticGameData;
use eel::game::table_state::TableState;
use eel::game::variant::Variant;

const R2_MASK: u64 = 1 << 1;
const R4_MASK: u64 = 1 << 3;
const Y4_MASK: u64 = 1 << 8;

fn five_players() -> StaticGameData {
    StaticGameData { number_of_players: 5, variant: Variant::no_variant() }
}

fn draw(ts: &mut TableState, sd: &StaticGameData, idx: u8) {
    ts.update_with_draw_action(sd, idx);
}


fn touched(v: &[u8]) -> TouchedCards {
    TouchedCards::from_indexes(v.to_vec())
}

fn setup_with_critical_chop(card_id: usize, card_mask: u64) -> (TableState, PlayerKnowledge) {
    let sd = five_players();
    let mut ts = TableState::new(&sd);
    ts.active_player_index = 1;
    draw(&mut ts, &sd, 10);
    ts.active_player_index = 0;
    ts.discard_pile[card_id] += 1;
    let knowledge = knowledge_with_visible(0, &[(10, card_mask)]);
    (ts, knowledge)
}

#[test]
fn color_save_generates_clue_when_chop_is_critical() {
    let sd = five_players();
    let (ts, knowledge) = setup_with_critical_chop(3, R4_MASK);
    let team = TeamKnowledge::new(5);
    let pov = LightweightPlayerPOV::new(0, &knowledge, &team, &ts, &sd);
    let actions = ConventionTech::ColorCriticalSave.game_actions(&pov);
    assert_eq!(actions.len(), 1);
    assert!(matches!(&actions[0], GameAction::Clue { clue, .. } if clue.clue_type == ClueType::Color && clue.clue_value == 0));
}

#[test]
fn rank_save_generates_clue_when_chop_is_critical() {
    let sd = five_players();
    let (ts, knowledge) = setup_with_critical_chop(3, R4_MASK);
    let team = TeamKnowledge::new(5);
    let pov = LightweightPlayerPOV::new(0, &knowledge, &team, &ts, &sd);
    let actions = ConventionTech::RankCriticalSave.game_actions(&pov);
    assert_eq!(actions.len(), 1);
    assert!(matches!(&actions[0], GameAction::Clue { clue, .. } if clue.clue_type == ClueType::Rank && clue.clue_value == 4));
}

#[test]
fn returns_empty_when_chop_is_not_critical() {
    let sd = five_players();
    let mut ts = TableState::new(&sd);
    ts.active_player_index = 1;
    draw(&mut ts, &sd, 10);
    ts.active_player_index = 0;
    let knowledge = knowledge_with_visible(0, &[(10, R4_MASK)]);
    let team = TeamKnowledge::new(5);
    let pov = LightweightPlayerPOV::new(0, &knowledge, &team, &ts, &sd);
    assert!(ConventionTech::ColorCriticalSave.game_actions(&pov).is_empty());
    assert!(ConventionTech::RankCriticalSave.game_actions(&pov).is_empty());
}

#[test]
fn returns_empty_when_chop_identity_unknown() {
    let sd = five_players();
    let mut ts = TableState::new(&sd);
    ts.active_player_index = 1;
    draw(&mut ts, &sd, 10);
    ts.active_player_index = 0;
    ts.discard_pile[3] += 1;
    let knowledge = knowledge_with_visible(0, &[]);
    let team = TeamKnowledge::new(5);
    let pov = LightweightPlayerPOV::new(0, &knowledge, &team, &ts, &sd);
    assert!(ConventionTech::ColorCriticalSave.game_actions(&pov).is_empty());
    assert!(ConventionTech::RankCriticalSave.game_actions(&pov).is_empty());
}

#[test]
fn color_save_touches_all_cards_of_same_suit() {
    let sd = five_players();
    let mut ts = TableState::new(&sd);
    ts.active_player_index = 1;
    draw(&mut ts, &sd, 10);
    draw(&mut ts, &sd, 20);
    ts.active_player_index = 0;
    ts.discard_pile[3] += 1;
    let knowledge = knowledge_with_visible(0, &[(10, R4_MASK), (20, R2_MASK)]);
    let team = TeamKnowledge::new(5);
    let pov = LightweightPlayerPOV::new(0, &knowledge, &team, &ts, &sd);
    let actions = ConventionTech::ColorCriticalSave.game_actions(&pov);
    assert_eq!(actions.len(), 1);
    let touched = match &actions[0] {
        GameAction::Clue { touched_card_deck_indexes, .. } => touched_card_deck_indexes,
        _ => panic!(),
    };
    assert!(touched.as_slice().contains(&10));
    assert!(touched.as_slice().contains(&20));
}

#[test]
fn matches_action_true_for_color_save_when_chop_is_critical() {
    let sd = five_players();
    let (ts, knowledge) = setup_with_critical_chop(3, R4_MASK);
    let mut team = TeamKnowledge::new(5);
    *team.player_mut(0) = knowledge.duplicate();
    let snapshot = GameStateSnapshot::new(ts.duplicate(), team.duplicate());
    let pov = LightweightPlayerPOV::new(0, &knowledge, &team, &ts, &sd);
    let action = GameAction::Clue {
        player_index: 1,
        touched_card_deck_indexes: touched(&[10]),
        clue: Clue { clue_type: ClueType::Color, clue_value: 0 },
        turn: 0,
    };
    assert!(ConventionTech::ColorCriticalSave.matches_action(&action, &[snapshot], &pov));
}

#[test]
fn critical_save_matches_action_false_when_history_is_empty() {
    let sd = five_players();
    let mut ts = TableState::new(&sd);
    ts.active_player_index = 1;
    draw(&mut ts, &sd, 10);
    ts.active_player_index = 0;
    ts.discard_pile[3] += 1;
    let knowledge = knowledge_with_visible(0, &[(10, R4_MASK)]);
    let team = TeamKnowledge::new(5);
    let pov = LightweightPlayerPOV::new(0, &knowledge, &team, &ts, &sd);
    let action = GameAction::Clue {
        player_index: 1,
        touched_card_deck_indexes: touched(&[10]),
        clue: Clue { clue_type: ClueType::Color, clue_value: 0 },
        turn: 0,
    };
    assert!(!ConventionTech::ColorCriticalSave.matches_action(&action, &[], &pov));
    assert!(!ConventionTech::RankCriticalSave.matches_action(&action, &[], &pov));
}

#[test]
fn matches_action_false_when_chop_is_not_critical() {
    let sd = five_players();
    let mut ts = TableState::new(&sd);
    ts.active_player_index = 1;
    draw(&mut ts, &sd, 10);
    ts.active_player_index = 0;
    let knowledge = knowledge_with_visible(0, &[(10, Y4_MASK)]);
    let mut team = TeamKnowledge::new(5);
    *team.player_mut(0) = knowledge.duplicate();
    let snapshot = GameStateSnapshot::new(ts.duplicate(), team.duplicate());
    let pov = LightweightPlayerPOV::new(0, &knowledge, &team, &ts, &sd);
    let action = GameAction::Clue {
        player_index: 1,
        touched_card_deck_indexes: touched(&[10]),
        clue: Clue { clue_type: ClueType::Color, clue_value: 1 },
        turn: 0,
    };
    assert!(!ConventionTech::ColorCriticalSave.matches_action(&action, &[snapshot], &pov));
}
