use eel::engine::convention::convention_tech::ConventionTech;
use eel::engine::knowledge::lightweight_player_pov::LightweightPlayerPOV;
use eel::engine::knowledge::player_knowledge::knowledge_for_hand;
use eel::engine::knowledge::team_knowledge::TeamKnowledge;
use eel::game::action::GameAction;
use eel::game::static_game_data::StaticGameData;
use eel::game::table_state::TableState;
use eel::game::variant::Variant;

fn five_players() -> StaticGameData {
    StaticGameData { number_of_players: 5, variant: Variant::no_variant() }
}

fn draw(ts: &mut TableState, sd: &StaticGameData, idx: u8) {
    ts.update_with_draw_action(sd, idx);
}


#[test]
fn discards_oldest_card_when_all_unclued() {
    let sd = five_players();
    let mut ts = TableState::new(&sd);
    ts.current_turn = 1;
    for &idx in &[10u8, 20, 30, 40, 50] {
        draw(&mut ts, &sd, idx);
    }
    let knowledge = knowledge_for_hand(&[10, 20, 30, 40, 50]);
    let team = TeamKnowledge::new(5);
    let pov = LightweightPlayerPOV::new(0, &knowledge, &team, &ts, &sd);
    assert_eq!(
        ConventionTech::DiscardChop.game_actions(&pov),
        vec![GameAction::Discard { player_index: 0, card_deck_index: 10, turn: 1 }]
    );
}

#[test]
fn skips_clued_cards_and_discards_oldest_unclued() {
    let sd = five_players();
    let mut ts = TableState::new(&sd);
    ts.current_turn = 2;
    for &idx in &[10u8, 20, 30, 40, 50] {
        draw(&mut ts, &sd, idx);
    }
    ts.clue_touched_cards |= 1 << 10;
    let knowledge = knowledge_for_hand(&[10, 20, 30, 40, 50]);
    let team = TeamKnowledge::new(5);
    let pov = LightweightPlayerPOV::new(0, &knowledge, &team, &ts, &sd);
    assert_eq!(
        ConventionTech::DiscardChop.game_actions(&pov),
        vec![GameAction::Discard { player_index: 0, card_deck_index: 20, turn: 2 }]
    );
}

#[test]
fn returns_no_action_when_all_cards_are_clued() {
    let sd = five_players();
    let mut ts = TableState::new(&sd);
    for &idx in &[10u8, 20] {
        draw(&mut ts, &sd, idx);
    }
    ts.clue_touched_cards |= (1 << 10) | (1 << 20);
    let knowledge = knowledge_for_hand(&[10, 20]);
    let team = TeamKnowledge::new(5);
    let pov = LightweightPlayerPOV::new(0, &knowledge, &team, &ts, &sd);
    assert!(ConventionTech::DiscardChop.game_actions(&pov).is_empty());
}

#[test]
fn matches_action_returns_true_for_chop_discard() {
    let sd = five_players();
    let mut ts = TableState::new(&sd);
    for &idx in &[10u8, 20, 30] {
        draw(&mut ts, &sd, idx);
    }
    let knowledge = knowledge_for_hand(&[10, 20, 30]);
    let team = TeamKnowledge::new(5);
    let pov = LightweightPlayerPOV::new(0, &knowledge, &team, &ts, &sd);
    let chop_action = GameAction::Discard { player_index: 0, card_deck_index: 10, turn: 5 };
    assert!(ConventionTech::DiscardChop.matches_action(&chop_action, &[], &pov));
}

#[test]
fn matches_action_returns_false_for_non_chop_discard() {
    let sd = five_players();
    let mut ts = TableState::new(&sd);
    for &idx in &[10u8, 20, 30] {
        draw(&mut ts, &sd, idx);
    }
    let knowledge = knowledge_for_hand(&[10, 20, 30]);
    let team = TeamKnowledge::new(5);
    let pov = LightweightPlayerPOV::new(0, &knowledge, &team, &ts, &sd);
    let non_chop = GameAction::Discard { player_index: 0, card_deck_index: 30, turn: 3 };
    assert!(!ConventionTech::DiscardChop.matches_action(&non_chop, &[], &pov));
}
