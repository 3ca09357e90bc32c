use eel::engine::convention::convention_tech::ConventionTech;
use eel::engine::game_state_snapshot::GameStateSnapshot;
use eel::engine::knowledge::knowledge_update::KnowledgeUpdate;
use eel::engine::knowledge::lightweight_player_pov::LightweightPlayerPOV;
use eel::engine::knowledge::player_knowledge::{knowledge_with_visible, PlayerKnowledge};
use eel::engine::knowledge::team_knowledge::TeamKnowledge;
use eel::game::action::{GameAction, TouchedCards};
use eel::game::card::CardIdentityMask;
use eel::game::clue::{Clue, ClueType};
use eel::game::static_game_data::StaticGameData;
use eel::game::table_state::TableState;
use eel::game::variant::Variant;

const R1_MASK: u64 = 1;
const R2_MASK: u64 = 1 << 1;
const Y1_MASK: u64 = 1 << 5;

fn five_players() -> StaticGameData {
    StaticGameData { number_of_players: 5, variant: Variant::no_variant() }
}

fn draw(ts: &mut TableState, sd: &StaticGameData, idx: u8) {
    ts.update_with_draw_action(sd, idx);
}


fn touched(v: &[u8]) -> TouchedCards {
    TouchedCards::from_indexes(v.to_vec())
}

fn clue(player_index: usize, t: &[u8], clue_type: ClueType, clue_value: u8, turn: usize) -> GameAction {
    GameAction::Clue { player_index, touched_card_deck_indexes: touched(t), clue: Clue { clue_type, clue_value }, turn }
}

#[test]
fn returns_empty_when_no_playable_card_in_other_hands() {
    let sd = five_players();
    let mut ts = TableState::new(&sd);
    ts.active_player_index = 1;
    draw(&mut ts, &sd, 10);
    ts.active_player_index = 0;
    let knowledge = knowledge_with_visible(0, &[(10, R2_MASK)]);
    let team = TeamKnowledge::new(5);
    let pov = LightweightPlayerPOV::new(0, &knowledge, &team, &ts, &sd);
    assert!(ConventionTech::DirectPlayClue.game_actions(&pov).is_empty());
}

#[test]
fn generates_clue_when_focus_is_the_only_card_and_it_is_playable() {
    let sd = five_players();
    let mut ts = TableState::new(&sd);
    ts.active_player_index = 1;
    draw(&mut ts, &sd, 10);
    ts.active_player_index = 0;
    let knowledge = knowledge_with_visible(0, &[(10, R1_MASK)]);
    let team = TeamKnowledge::new(5);
    let pov = LightweightPlayerPOV::new(0, &knowledge, &team, &ts, &sd);
    let actions = ConventionTech::DirectPlayClue.game_actions(&pov);
    assert_eq!(actions, vec![clue(1, &[10], ClueType::Color, 0, 1), clue(1, &[10], ClueType::Rank, 1, 1)]);
}

#[test]
fn does_not_generate_clue_when_focus_is_not_playable() {
    let sd = five_players();
    let mut ts = TableState::new(&sd);
    ts.active_player_index = 1;
    draw(&mut ts, &sd, 10);
    draw(&mut ts, &sd, 20);
    ts.active_player_index = 0;
    let knowledge = knowledge_with_visible(0, &[(10, R2_MASK), (20, R1_MASK)]);
    let team = TeamKnowledge::new(5);
    let pov = LightweightPlayerPOV::new(0, &knowledge, &team, &ts, &sd);
    let actions = ConventionTech::DirectPlayClue.game_actions(&pov);
    assert_eq!(actions, vec![clue(1, &[20], ClueType::Rank, 1, 1)]);
}

#[test]
fn generates_clues_for_multiple_target_players() {
    let sd = five_players();
    let mut ts = TableState::new(&sd);
    ts.active_player_index = 1;
    draw(&mut ts, &sd, 10);
    ts.active_player_index = 2;
    draw(&mut ts, &sd, 20);
    ts.active_player_index = 0;
    let knowledge = knowledge_with_visible(0, &[(10, R1_MASK), (20, Y1_MASK)]);
    let team = TeamKnowledge::new(5);
    let pov = LightweightPlayerPOV::new(0, &knowledge, &team, &ts, &sd);
    let actions = ConventionTech::DirectPlayClue.game_actions(&pov);
    assert!(actions.contains(&clue(1, &[10], ClueType::Color, 0, 1)));
    assert_eq!(
        actions,
        vec![
            clue(1, &[10], ClueType::Color, 0, 1),
            clue(1, &[10], ClueType::Rank, 1, 1),
            clue(2, &[20], ClueType::Color, 1, 1),
            clue(2, &[20], ClueType::Rank, 1, 1),
        ]
    );
}

#[test]
fn matches_action_true_when_focus_is_playable() {
    let sd = five_players();
    let mut ts = TableState::new(&sd);
    ts.active_player_index = 1;
    draw(&mut ts, &sd, 10);
    ts.active_player_index = 0;
    let knowledge = knowledge_with_visible(0, &[(10, R1_MASK)]);
    let mut team = TeamKnowledge::new(5);
    team.player_mut(0).inferred_identities[10] = Some(CardIdentityMask::from_bits(R1_MASK));
    team.player_mut(0).visible_cards |= 1 << 10;
    let snapshot = GameStateSnapshot::new(ts.duplicate(), team.duplicate());
    let pov = LightweightPlayerPOV::new(0, &knowledge, &team, &ts, &sd);
    assert!(ConventionTech::DirectPlayClue.matches_action(&clue(1, &[10], ClueType::Color, 0, 1), &[snapshot], &pov));
}

#[test]
fn matches_action_false_when_focus_is_not_playable() {
    let sd = five_players();
    let mut ts = TableState::new(&sd);
    ts.active_player_index = 1;
    draw(&mut ts, &sd, 10);
    ts.active_player_index = 0;
    let knowledge = knowledge_with_visible(0, &[(10, R2_MASK)]);
    let mut team = TeamKnowledge::new(5);
    team.player_mut(0).inferred_identities[10] = Some(CardIdentityMask::from_bits(R2_MASK));
    team.player_mut(0).visible_cards |= 1 << 10;
    let snapshot = GameStateSnapshot::new(ts.duplicate(), team.duplicate());
    let pov = LightweightPlayerPOV::new(0, &knowledge, &team, &ts, &sd);
    assert!(!ConventionTech::DirectPlayClue.matches_action(&clue(1, &[10], ClueType::Color, 0, 1), &[snapshot], &pov));
}

#[test]
fn direct_play_clue_matches_action_false_for_non_clue_action() {
    let sd = five_players();
    let ts = TableState::new(&sd);
    let knowledge = PlayerKnowledge::new(0);
    let team = TeamKnowledge::new(5);
    let pov = LightweightPlayerPOV::new(0, &knowledge, &team, &ts, &sd);
    let play = GameAction::Play { player_index: 0, card_deck_index: 5, turn: 1 };
    assert!(!ConventionTech::DirectPlayClue.matches_action(&play, &[], &pov));
}

#[test]
fn matches_action_false_when_touched_is_empty_and_no_focus() {
    let sd = five_players();
    let ts = TableState::new(&sd);
    let knowledge = PlayerKnowledge::new(0);
    let team = TeamKnowledge::new(5);
    let snapshot = GameStateSnapshot::new(ts.duplicate(), team.duplicate());
    let pov = LightweightPlayerPOV::new(0, &knowledge, &team, &ts, &sd);
    assert!(!ConventionTech::DirectPlayClue.matches_action(&clue(1, &[], ClueType::Color, 0, 1), &[snapshot], &pov));
}

#[test]
fn knowledge_updates_narrows_focus_to_immediately_playable_ids() {
    let sd = five_players();
    let mut ts = TableState::new(&sd);
    ts.active_player_index = 1;
    draw(&mut ts, &sd, 10);
    ts.active_player_index = 0;
    let knowledge = knowledge_with_visible(0, &[(10, R1_MASK)]);
    let mut team = TeamKnowledge::new(5);
    team.player_mut(0).inferred_identities[10] = Some(CardIdentityMask::from_bits(R1_MASK));
    team.player_mut(0).visible_cards |= 1 << 10;
    let snapshot = GameStateSnapshot::new(ts.duplicate(), team.duplicate());
    let pov = LightweightPlayerPOV::new(0, &knowledge, &team, &ts, &sd);
    let updates = ConventionTech::DirectPlayClue.knowledge_updates(&clue(1, &[10], ClueType::Color, 0, 1), &[snapshot], &pov);
    assert_eq!(updates.immediate.len(), 1);
    assert!(updates.trigger.is_none());
    if let KnowledgeUpdate::NarrowPossibilities { card_deck_index, mask } = &updates.immediate[0] {
        assert_eq!(*card_deck_index, 10);
        assert_ne!(mask & R1_MASK, 0, "R1 should be in the mask");
        assert_eq!(mask & R2_MASK, 0, "R2 (not yet playable) should not be in the mask");
    } else {
        panic!("expected NarrowPossibilities");
    }
}

#[test]
fn direct_play_clue_knowledge_updates_returns_empty_when_no_touched_cards() {
    let sd = five_players();
    let mut ts = TableState::new(&sd);
    draw(&mut ts, &sd, 10);
    ts.active_player_index = 0;
    let knowledge = knowledge_with_visible(0, &[(10, R1_MASK)]);
    let team = TeamKnowledge::new(5);
    let snapshot = GameStateSnapshot::new(ts.duplicate(), team.duplicate());
    let pov = LightweightPlayerPOV::new(0, &knowledge, &team, &ts, &sd);
    assert!(ConventionTech::DirectPlayClue.knowledge_updates(&clue(0, &[], ClueType::Color, 0, 1), &[snapshot], &pov).is_empty());
}
