#![allow(dead_code)]
use eel::engine::convention::convention_tech::ConventionTech;
use eel::engine::convention::hgroup::signal::Signal;
use eel::engine::game_state_snapshot::GameStateSnapshot;
use eel::engine::knowledge::knowledge_update::{KnowledgeUpdate, PendingTrigger};
use eel::engine::knowledge::lightweight_player_pov::LightweightPlayerPOV;
use eel::engine::knowledge::player_knowledge::knowledge_with_visible;
use eel::engine::knowledge::team_knowledge::TeamKnowledge;
use eel::game::action::{GameAction, TouchedCards};
use eel::game::card::CardIdentityMask;
use eel::game::clue::{Clue, ClueType};
use eel::game::static_game_data::StaticGameData;
use eel::game::table_state::TableState;
use eel::game::variant::Variant;

const R1: u8 = 0;
const R2: u8 = 1;
const R3: u8 = 2;
const Y1: u8 = 5;
const Y2: u8 = 6;
const G1: u8 = 10;
const G2: u8 = 11;
const B1: u8 = 15;
const B2: u8 = 16;
const P1: u8 = 20;
const P2: u8 = 21;
const P3: u8 = 22;
const R1_MASK: u64 = 1 << R1;
const R2_MASK: u64 = 1 << R2;
const R3_MASK: u64 = 1 << R3;
const Y1_MASK: u64 = 1 << Y1;
const Y2_MASK: u64 = 1 << Y2;
const G1_MASK: u64 = 1 << G1;
const G2_MASK: u64 = 1 << G2;
const B1_MASK: u64 = 1 << B1;
const B2_MASK: u64 = 1 << B2;
const P1_MASK: u64 = 1 << P1;
const P2_MASK: u64 = 1 << P2;
const P3_MASK: u64 = 1 << P3;
const R4: u8 = 3;
const R5: u8 = 4;
const R4_MASK: u64 = 1 << R4;
const R5_MASK: u64 = 1 << R5;
const Y5: u8 = 9;
const Y5_MASK: u64 = 1 << Y5;


fn five_players() -> StaticGameData {
    StaticGameData { number_of_players: 5, variant: Variant::no_variant() }
}

fn draw(ts: &mut TableState, sd: &StaticGameData, idx: u8) {
    ts.update_with_draw_action(sd, idx);
}


fn color_clue(player_index: usize, t: &[u8], turn: usize) -> GameAction {
    GameAction::Clue {
        player_index,
        touched_card_deck_indexes: TouchedCards::from_indexes(t.to_vec()),
        clue: Clue { clue_type: ClueType::Color, clue_value: 0 },
        turn,
    }
}

#[test]
fn knowledge_updates_finesse_position_player_gets_play_signal() {
    let sd = five_players();
    let mut ts = TableState::new(&sd);
    ts.update_with_play_action_of_specific_card(&sd, 0, R1);
    ts.active_player_index = 1;
    draw(&mut ts, &sd, 10);
    ts.active_player_index = 2;
    draw(&mut ts, &sd, 20);
    ts.active_player_index = 0;
    let mut team = TeamKnowledge::new(5);
    team.player_mut(0).inferred_identities[10] = Some(CardIdentityMask::from_bits(R2_MASK));
    team.player_mut(0).visible_cards |= 1u64 << 10;
    team.player_mut(0).inferred_identities[20] = Some(CardIdentityMask::from_bits(R3_MASK));
    team.player_mut(0).visible_cards |= 1u64 << 20;
    let snapshot = GameStateSnapshot::new(ts.duplicate(), team.duplicate());
    ts.active_player_index = 1;
    let knowledge = knowledge_with_visible(1, &[(20, R3_MASK)]);
    let pov = LightweightPlayerPOV::new(1, &knowledge, &team, &ts, &sd);
    let updates = ConventionTech::SimpleFinesse.knowledge_updates(&color_clue(2, &[20], 1), &[snapshot], &pov);
    assert_eq!(updates.immediate.len(), 2);
    assert!(updates.trigger.is_none());
    assert!(matches!(
        &updates.immediate[0],
        KnowledgeUpdate::NarrowPossibilities { card_deck_index: 10, .. }
    ));
    assert!(matches!(
        &updates.immediate[1],
        KnowledgeUpdate::AddSignal { card_deck_index: 10, signal: Signal::Play { .. } }
    ));
}

#[test]
fn knowledge_updates_no_signal_when_focus_is_directly_playable() {
    let sd = five_players();
    let mut ts = TableState::new(&sd);
    ts.active_player_index = 1;
    draw(&mut ts, &sd, 10);
    ts.active_player_index = 2;
    draw(&mut ts, &sd, 20);
    ts.clue_touched_cards |= 1 << 20;
    ts.active_player_index = 1;
    let knowledge = knowledge_with_visible(1, &[(10, R1_MASK), (20, R1_MASK)]);
    let team = TeamKnowledge::new(5);
    let pov = LightweightPlayerPOV::new(1, &knowledge, &team, &ts, &sd);
    assert!(ConventionTech::SimpleFinesse.knowledge_updates(&color_clue(0, &[], 1), &[], &pov).is_empty());
}

#[test]
fn knowledge_updates_no_signal_when_finesse_position_card_does_not_match() {
    let sd = five_players();
    let mut ts = TableState::new(&sd);
    ts.update_with_play_action_of_specific_card(&sd, 0, R1);
    ts.active_player_index = 1;
    draw(&mut ts, &sd, 10);
    ts.active_player_index = 2;
    draw(&mut ts, &sd, 20);
    ts.clue_touched_cards |= 1 << 20;
    ts.active_player_index = 1;
    let knowledge = knowledge_with_visible(1, &[(10, Y2_MASK), (20, R3_MASK)]);
    let team = TeamKnowledge::new(5);
    let pov = LightweightPlayerPOV::new(1, &knowledge, &team, &ts, &sd);
    assert!(ConventionTech::SimpleFinesse.knowledge_updates(&color_clue(0, &[], 1), &[], &pov).is_empty());
}

#[test]
fn simple_finesse_knowledge_updates_returns_empty_when_no_touched_cards() {
    let sd = five_players();
    let mut ts = TableState::new(&sd);
    ts.update_with_play_action_of_specific_card(&sd, 0, R1);
    ts.active_player_index = 0;
    draw(&mut ts, &sd, 10);
    ts.active_player_index = 1;
    draw(&mut ts, &sd, 20);
    ts.active_player_index = 0;
    let knowledge = knowledge_with_visible(0, &[(10, R3_MASK), (20, R2_MASK)]);
    let team = TeamKnowledge::new(5);
    let pov = LightweightPlayerPOV::new(0, &knowledge, &team, &ts, &sd);
    assert!(ConventionTech::SimpleFinesse.knowledge_updates(&color_clue(0, &[], 1), &[], &pov).is_empty());
}

#[test]
fn knowledge_updates_receiver_returns_provisional_hypothesis() {
    let sd = five_players();
    let mut ts = TableState::new(&sd);
    ts.update_with_play_action_of_specific_card(&sd, 0, R1);
    ts.active_player_index = 1;
    draw(&mut ts, &sd, 10);
    ts.active_player_index = 2;
    draw(&mut ts, &sd, 20);
    ts.active_player_index = 0;
    let mut team = TeamKnowledge::new(5);
    team.player_mut(0).inferred_identities[10] = Some(CardIdentityMask::from_bits(R2_MASK));
    team.player_mut(0).visible_cards |= 1u64 << 10;
    team.player_mut(0).inferred_identities[20] = Some(CardIdentityMask::from_bits(R3_MASK));
    team.player_mut(0).visible_cards |= 1u64 << 20;
    team.player_mut(2).own_hand |= 1u64 << 20;
    let snapshot = GameStateSnapshot::new(ts.duplicate(), team.duplicate());
    ts.active_player_index = 2;
    let knowledge = knowledge_with_visible(2, &[(10, R2_MASK)]);
    let pov = LightweightPlayerPOV::new(2, &knowledge, &team, &ts, &sd);
    let updates = ConventionTech::SimpleFinesse.knowledge_updates(&color_clue(2, &[20], 1), &[snapshot], &pov);
    assert_eq!(updates.immediate.len(), 1);
    if let KnowledgeUpdate::NarrowPossibilities { card_deck_index, mask } = &updates.immediate[0] {
        assert_eq!(*card_deck_index, 20);
        assert_eq!(*mask, R3_MASK, "hypothesis pins focus to R3");
    } else {
        panic!("expected NarrowPossibilities");
    }
    match updates.trigger {
        Some(PendingTrigger::BlindPlay { player, expected_card, .. }) => {
            assert_eq!(player, 1);
            assert_eq!(expected_card, 10);
        }
        _ => panic!("expected BlindPlay trigger"),
    }
}
