use eel::engine::convention::convention_tech::ConventionTech;
use eel::engine::convention::hgroup::signal::Signal;
use eel::engine::game_state_snapshot::GameStateSnapshot;
use eel::engine::knowledge::lightweight_player_pov::LightweightPlayerPOV;
use eel::engine::knowledge::player_knowledge::{knowledge_with_visible, PlayerKnowledge};
use eel::engine::knowledge::team_knowledge::TeamKnowledge;
use eel::game::action::{GameAction, TouchedCards};
use eel::game::card::CardIdentityMask;
use eel::game::clue::{Clue, ClueType};
use eel::game::static_game_data::StaticGameData;
use eel::game::table_state::TableState;
use eel::game::variant::Variant;

const R1_MASK: u64 = 1;
const R2_MASK: u64 = 1 << 1;

fn five_players() -> StaticGameData {
    StaticGameData { number_of_players: 5, variant: Variant::no_variant() }
}

fn draw(ts: &mut TableState, sd: &StaticGameData, idx: u8) {
    ts.update_with_draw_action(sd, idx);
}


fn touched(v: &[u8]) -> TouchedCards {
    TouchedCards::from_indexes(v.to_vec())
}

#[test]
fn returns_empty_when_no_card_is_touched() {
    let sd = five_players();
    let mut ts = TableState::new(&sd);
    ts.active_player_index = 1;
    draw(&mut ts, &sd, 10);
    ts.active_player_index = 0;
    let knowledge = knowledge_with_visible(0, &[(10, R1_MASK)]);
    let team = TeamKnowledge::new(5);
    let pov = LightweightPlayerPOV::new(0, &knowledge, &team, &ts, &sd);
    assert!(ConventionTech::ClueBurn.game_actions(&pov).is_empty());
}

#[test]
fn generates_clue_when_touched_card_is_already_clue_touched() {
    let sd = five_players();
    let mut ts = TableState::new(&sd);
    ts.active_player_index = 1;
    draw(&mut ts, &sd, 10);
    ts.active_player_index = 0;
    ts.clue_touched_cards |= 1 << 10;
    let knowledge = knowledge_with_visible(0, &[(10, R1_MASK)]);
    let team = TeamKnowledge::new(5);
    let pov = LightweightPlayerPOV::new(0, &knowledge, &team, &ts, &sd);
    let actions = ConventionTech::ClueBurn.game_actions(&pov);
    assert_eq!(
        actions,
        vec![
            GameAction::Clue {
                player_index: 1,
                touched_card_deck_indexes: touched(&[10]),
                clue: Clue { clue_type: ClueType::Color, clue_value: 0 },
                turn: 1,
            },
            GameAction::Clue {
                player_index: 1,
                touched_card_deck_indexes: touched(&[10]),
                clue: Clue { clue_type: ClueType::Rank, clue_value: 1 },
                turn: 1,
            },
        ]
    );
}

#[test]
fn generates_clue_when_touched_card_is_already_signal_touched() {
    let sd = five_players();
    let mut ts = TableState::new(&sd);
    ts.active_player_index = 1;
    draw(&mut ts, &sd, 10);
    ts.active_player_index = 0;
    let knowledge = knowledge_with_visible(0, &[(10, R1_MASK)]);
    let mut team = TeamKnowledge::new(5);
    let tk = team.player_mut(1);
    tk.own_hand |= 1 << 10;
    tk.add_signal(10, Signal::Play { card_deck_index: 10, committed_identity: 0 });
    let pov = LightweightPlayerPOV::new(0, &knowledge, &team, &ts, &sd);
    let actions = ConventionTech::ClueBurn.game_actions(&pov);
    assert_eq!(actions.len(), 2);
    assert!(actions.iter().all(|a| matches!(a, GameAction::Clue { player_index: 1, .. })));
}

#[test]
fn skips_clue_that_touches_both_touched_and_untouched_cards() {
    let sd = five_players();
    let mut ts = TableState::new(&sd);
    ts.active_player_index = 1;
    draw(&mut ts, &sd, 10);
    draw(&mut ts, &sd, 20);
    ts.active_player_index = 0;
    ts.clue_touched_cards |= 1 << 10;
    let knowledge = knowledge_with_visible(0, &[(10, R1_MASK), (20, R2_MASK)]);
    let team = TeamKnowledge::new(5);
    let pov = LightweightPlayerPOV::new(0, &knowledge, &team, &ts, &sd);
    let actions = ConventionTech::ClueBurn.game_actions(&pov);
    assert!(!actions.iter().any(|a| matches!(a, GameAction::Clue { clue, .. } if clue.clue_type == ClueType::Color)));
    assert!(!actions
        .iter()
        .any(|a| matches!(a, GameAction::Clue { clue, .. } if clue.clue_type == ClueType::Rank && clue.clue_value == 2)));
    assert!(actions
        .iter()
        .any(|a| matches!(a, GameAction::Clue { clue, .. } if clue.clue_type == ClueType::Rank && clue.clue_value == 1)));
}

#[test]
fn matches_action_true_when_all_touched_cards_were_already_touched() {
    let sd = five_players();
    let mut ts = TableState::new(&sd);
    ts.active_player_index = 1;
    draw(&mut ts, &sd, 10);
    ts.active_player_index = 0;
    ts.clue_touched_cards |= 1 << 10;
    let knowledge = knowledge_with_visible(0, &[(10, R1_MASK)]);
    let team = TeamKnowledge::new(5);
    let snapshot = GameStateSnapshot::new(ts.duplicate(), team.duplicate());
    let pov = LightweightPlayerPOV::new(0, &knowledge, &team, &ts, &sd);
    let clue = GameAction::Clue {
        player_index: 1,
        touched_card_deck_indexes: touched(&[10]),
        clue: Clue { clue_type: ClueType::Color, clue_value: 0 },
        turn: 1,
    };
    assert!(ConventionTech::ClueBurn.matches_action(&clue, &[snapshot], &pov));
}

#[test]
fn matches_action_false_when_touched_card_was_not_yet_touched() {
    let sd = five_players();
    let mut ts = TableState::new(&sd);
    ts.active_player_index = 1;
    draw(&mut ts, &sd, 10);
    ts.active_player_index = 0;
    let knowledge = knowledge_with_visible(0, &[(10, R1_MASK)]);
    let mut team = TeamKnowledge::new(5);
    team.player_mut(0).inferred_identities[10] = Some(CardIdentityMask::from_bits(R1_MASK));
    team.player_mut(0).visible_cards |= 1 << 10;
    let snapshot = GameStateSnapshot::new(ts.duplicate(), team.duplicate());
    let pov = LightweightPlayerPOV::new(0, &knowledge, &team, &ts, &sd);
    let clue = GameAction::Clue {
        player_index: 1,
        touched_card_deck_indexes: touched(&[10]),
        clue: Clue { clue_type: ClueType::Color, clue_value: 0 },
        turn: 1,
    };
    assert!(!ConventionTech::ClueBurn.matches_action(&clue, &[snapshot], &pov));
}

#[test]
fn clue_burn_matches_action_false_for_non_clue_action() {
    let sd = five_players();
    let ts = TableState::new(&sd);
    let knowledge = PlayerKnowledge::new(0);
    let team = TeamKnowledge::new(5);
    let pov = LightweightPlayerPOV::new(0, &knowledge, &team, &ts, &sd);
    let play = GameAction::Play { player_index: 0, card_deck_index: 5, turn: 1 };
    assert!(!ConventionTech::ClueBurn.matches_action(&play, &[], &pov));
}

#[test]
fn matches_action_false_when_touched_is_empty() {
    let sd = five_players();
    let ts = TableState::new(&sd);
    let knowledge = PlayerKnowledge::new(0);
    let team = TeamKnowledge::new(5);
    let snapshot = GameStateSnapshot::new(ts.duplicate(), team.duplicate());
    let pov = LightweightPlayerPOV::new(0, &knowledge, &team, &ts, &sd);
    let clue = GameAction::Clue {
        player_index: 1,
        touched_card_deck_indexes: touched(&[]),
        clue: Clue { clue_type: ClueType::Color, clue_value: 0 },
        turn: 1,
    };
    assert!(!ConventionTech::ClueBurn.matches_action(&clue, &[snapshot], &pov));
}

#[test]
fn clue_burn_matches_action_false_when_history_is_empty() {
    let sd = five_players();
    let ts = TableState::new(&sd);
    let knowledge = PlayerKnowledge::new(0);
    let team = TeamKnowledge::new(5);
    let pov = LightweightPlayerPOV::new(0, &knowledge, &team, &ts, &sd);
    let clue = GameAction::Clue {
        player_index: 1,
        touched_card_deck_indexes: touched(&[10]),
        clue: Clue { clue_type: ClueType::Color, clue_value: 0 },
        turn: 1,
    };
    assert!(!ConventionTech::ClueBurn.matches_action(&clue, &[], &pov));
}

#[test]
fn knowledge_updates_always_empty_for_burn_clue() {
    let sd = five_players();
    let ts = TableState::new(&sd);
    let knowledge = PlayerKnowledge::new(0);
    let team = TeamKnowledge::new(5);
    let pov = LightweightPlayerPOV::new(0, &knowledge, &team, &ts, &sd);
    let clue = GameAction::Clue {
        player_index: 0,
        touched_card_deck_indexes: touched(&[5]),
        clue: Clue { clue_type: ClueType::Color, clue_value: 0 },
        turn: 1,
    };
    assert!(ConventionTech::ClueBurn.knowledge_updates(&clue, &[], &pov).is_empty());
}
