#![allow(dead_code)]
use eel::engine::convention::convention_tech::ConventionTech;
use eel::engine::game_state_snapshot::GameStateSnapshot;
use eel::engine::knowledge::knowledge_update::KnowledgeUpdate;
use eel::engine::knowledge::lightweight_player_pov::LightweightPlayerPOV;
use eel::engine::knowledge::player_knowledge::PlayerKnowledge;
use eel::engine::knowledge::team_knowledge::TeamKnowledge;
use eel::game::action::{GameAction, TouchedCards};
use eel::game::card::CardIdentityMask;
use eel::game::clue::{Clue, ClueType};
use eel::game::static_game_data::StaticGameData;
use eel::game::table_state::TableState;
use eel::game::variant::Variant;

const R1: u8 = 0;
const R2: u8 = 1;
const R3: u8 = 2;
const Y1: u8 = 5;
const Y2: u8 = 6;
const G1: u8 = 10;
const G2: u8 = 11;
const B1: u8 = 15;
const B2: u8 = 16;
const P1: u8 = 20;
const P2: u8 = 21;
const P3: u8 = 22;
const R1_MASK: u64 = 1 << R1;
const R2_MASK: u64 = 1 << R2;
const R3_MASK: u64 = 1 << R3;
const Y1_MASK: u64 = 1 << Y1;
const Y2_MASK: u64 = 1 << Y2;
const G1_MASK: u64 = 1 << G1;
const G2_MASK: u64 = 1 << G2;
const B1_MASK: u64 = 1 << B1;
const B2_MASK: u64 = 1 << B2;
const P1_MASK: u64 = 1 << P1;
const P2_MASK: u64 = 1 << P2;
const P3_MASK: u64 = 1 << P3;
const R4: u8 = 3;
const R5: u8 = 4;
const R4_MASK: u64 = 1 << R4;
const R5_MASK: u64 = 1 << R5;
const Y5: u8 = 9;
const Y5_MASK: u64 = 1 << Y5;


fn five_players() -> StaticGameData {
    StaticGameData { number_of_players: 5, variant: Variant::no_variant() }
}

fn draw(ts: &mut TableState, sd: &StaticGameData, idx: u8) {
    ts.update_with_draw_action(sd, idx);
}


fn clue(player_index: usize, t: &[u8], clue_type: ClueType, clue_value: u8, turn: usize) -> GameAction {
    GameAction::Clue {
        player_index,
        touched_card_deck_indexes: TouchedCards::from_indexes(t.to_vec()),
        clue: Clue { clue_type, clue_value },
        turn,
    }
}

fn setup(cards: &[(usize, u8, u64)], touched: &[u8], stacks_played: &[u8]) -> (TableState, PlayerKnowledge, TeamKnowledge, StaticGameData) {
    let sd = five_players();
    let mut ts = TableState::new(&sd);
    for &card in stacks_played {
        ts.update_with_play_action_of_specific_card(&sd, 0, card);
    }
    for &(player, deck_idx, _) in cards {
        ts.active_player_index = player;
        draw(&mut ts, &sd, deck_idx);
    }
    ts.active_player_index = 0;
    for &idx in touched {
        ts.clue_touched_cards |= 1u64 << idx;
    }
    let mut knowledge = PlayerKnowledge::new(0);
    for &(_, deck_idx, mask) in cards {
        knowledge.inferred_identities[deck_idx as usize] = Some(CardIdentityMask::from_bits(mask));
        knowledge.visible_cards |= 1u64 << deck_idx;
    }
    let mut team = TeamKnowledge::new(5);
    for &(_, deck_idx, mask) in cards {
        team.player_mut(0).inferred_identities[deck_idx as usize] = Some(CardIdentityMask::from_bits(mask));
        team.player_mut(0).visible_cards |= 1u64 << deck_idx;
    }
    (ts, knowledge, team, sd)
}

#[test]
fn returns_empty_when_connecting_card_is_not_touched() {
    let (ts, knowledge, team, sd) = setup(&[(1, 10, R2_MASK), (2, 20, R3_MASK)], &[], &[R1]);
    let pov = LightweightPlayerPOV::new(0, &knowledge, &team, &ts, &sd);
    assert!(ConventionTech::SimplePrompt.game_actions(&pov).is_empty());
}

#[test]
fn returns_empty_when_connecting_card_identity_is_known_to_holder() {
    let sd = five_players();
    let mut ts = TableState::new(&sd);
    ts.update_with_play_action_of_specific_card(&sd, 0, R1);
    ts.active_player_index = 1;
    draw(&mut ts, &sd, 10);
    ts.active_player_index = 2;
    draw(&mut ts, &sd, 20);
    ts.active_player_index = 0;
    ts.clue_touched_cards |= 1u64 << 10;
    let mut knowledge = PlayerKnowledge::new(0);
    knowledge.inferred_identities[10] = Some(CardIdentityMask::from_bits(R2_MASK));
    knowledge.visible_cards |= 1u64 << 10;
    knowledge.inferred_identities[20] = Some(CardIdentityMask::from_bits(R3_MASK));
    knowledge.visible_cards |= 1u64 << 20;
    let mut team = TeamKnowledge::new(5);
    team.player_mut(1).own_hand |= 1u64 << 10;
    team.player_mut(1).visible_cards |= 1u64 << 10;
    let pov = LightweightPlayerPOV::new(0, &knowledge, &team, &ts, &sd);
    assert!(ConventionTech::SimplePrompt.game_actions(&pov).is_empty());
}

#[test]
fn returns_empty_when_focus_is_directly_playable() {
    let (ts, knowledge, team, sd) = setup(&[(1, 10, R1_MASK)], &[], &[]);
    let pov = LightweightPlayerPOV::new(0, &knowledge, &team, &ts, &sd);
    assert!(ConventionTech::SimplePrompt.game_actions(&pov).is_empty());
}

#[test]
fn generates_clue_when_connecting_card_is_leftmost_touched_and_unknown() {
    let (ts, knowledge, team, sd) = setup(&[(1, 10, R2_MASK), (2, 20, R3_MASK)], &[10], &[R1]);
    let pov = LightweightPlayerPOV::new(0, &knowledge, &team, &ts, &sd);
    let actions = ConventionTech::SimplePrompt.game_actions(&pov);
    assert!(actions.iter().any(|a| matches!(a, GameAction::Clue { player_index: 2, .. })));
}

#[test]
fn generates_clue_when_prompt_chain_all_left_cards_playable() {
    let (ts, knowledge, team, sd) = setup(&[(1, 10, R4_MASK), (1, 11, Y1_MASK), (2, 20, R5_MASK)], &[10, 11], &[R1, R2, R3]);
    let pov = LightweightPlayerPOV::new(0, &knowledge, &team, &ts, &sd);
    let actions = ConventionTech::SimplePrompt.game_actions(&pov);
    assert!(actions.iter().any(|a| matches!(a, GameAction::Clue { player_index: 2, .. })));
}

#[test]
fn returns_empty_when_leftmost_touched_card_is_not_playable_and_not_the_connecting_card() {
    let (ts, knowledge, team, sd) = setup(&[(1, 10, R4_MASK), (1, 11, Y2_MASK), (2, 20, R5_MASK)], &[10, 11], &[R1, R2, R3]);
    let pov = LightweightPlayerPOV::new(0, &knowledge, &team, &ts, &sd);
    assert!(ConventionTech::SimplePrompt.game_actions(&pov).is_empty());
}

#[test]
fn matches_action_true_for_valid_prompt_clue() {
    let (ts, knowledge, team, sd) = setup(&[(1, 10, R2_MASK), (2, 20, R3_MASK)], &[10], &[R1]);
    let snapshot = GameStateSnapshot::new(ts.duplicate(), team.duplicate());
    let pov = LightweightPlayerPOV::new(0, &knowledge, &team, &ts, &sd);
    assert!(ConventionTech::SimplePrompt.matches_action(&clue(2, &[20], ClueType::Color, 0, 0), &[snapshot], &pov));
}

#[test]
fn matches_action_false_when_focus_is_directly_playable() {
    let (ts, knowledge, team, sd) = setup(&[(1, 10, R1_MASK)], &[], &[]);
    let pov = LightweightPlayerPOV::new(0, &knowledge, &team, &ts, &sd);
    assert!(!ConventionTech::SimplePrompt.matches_action(&clue(1, &[10], ClueType::Rank, 1, 0), &[], &pov));
}

#[test]
fn simple_prompt_matches_action_false_for_non_clue_action() {
    let sd = five_players();
    let ts = TableState::new(&sd);
    let knowledge = PlayerKnowledge::new(0);
    let team = TeamKnowledge::new(5);
    let pov = LightweightPlayerPOV::new(0, &knowledge, &team, &ts, &sd);
    assert!(!ConventionTech::SimplePrompt.matches_action(&GameAction::Play { player_index: 0, card_deck_index: 5, turn: 0 }, &[], &pov));
}

#[test]
fn knowledge_updates_receiver_narrows_focus_to_1_away_ids_with_prompted_player() {
    let (ts, knowledge, team, sd) = setup(&[(0, 10, R3_MASK), (1, 20, R2_MASK)], &[10, 20], &[R1]);
    let snapshot = GameStateSnapshot::new(ts.duplicate(), team.duplicate());
    let pov = LightweightPlayerPOV::new(0, &knowledge, &team, &ts, &sd);
    let updates = ConventionTech::SimplePrompt.knowledge_updates(&clue(0, &[10], ClueType::Color, 0, 0), &[snapshot], &pov);
    assert_eq!(updates.immediate.len(), 1);
    if let KnowledgeUpdate::NarrowPossibilities { card_deck_index, mask } = &updates.immediate[0] {
        assert_eq!(*card_deck_index, 10);
        assert_ne!(mask & R3_MASK, 0, "R3 should be in the mask");
        assert_eq!(mask & R1_MASK, 0, "R1 (directly playable) should not be in the mask");
        assert_eq!(mask & R2_MASK, 0, "R2 (away=0 after R1 played) should not be in the mask");
    } else {
        panic!("expected NarrowPossibilities");
    }
}

#[test]
fn knowledge_updates_prompted_player_narrows_leftmost_touched_to_connecting_card() {
    let (ts, knowledge, mut team, sd) = setup(&[(0, 10, R3_MASK), (1, 20, R2_MASK)], &[10, 20], &[R1]);
    team.player_mut(0).inferred_identities[10] = Some(CardIdentityMask::from_bits(R3_MASK));
    team.player_mut(0).visible_cards |= 1u64 << 10;
    team.player_mut(0).inferred_identities[20] = Some(CardIdentityMask::from_bits(R2_MASK));
    team.player_mut(0).visible_cards |= 1u64 << 20;
    let snapshot = GameStateSnapshot::new(ts.duplicate(), team.duplicate());
    let pov = LightweightPlayerPOV::new(0, &knowledge, &team, &ts, &sd);
    let updates = ConventionTech::SimplePrompt.knowledge_updates(&clue(0, &[10], ClueType::Color, 0, 0), &[snapshot], &pov);
    assert_eq!(updates.immediate.len(), 1);
    if let KnowledgeUpdate::NarrowPossibilities { card_deck_index, mask } = &updates.immediate[0] {
        assert_eq!(*card_deck_index, 10);
        assert_ne!(mask & R3_MASK, 0, "R3 should be in the mask");
    } else {
        panic!("expected NarrowPossibilities");
    }
}

#[test]
fn simple_prompt_knowledge_updates_returns_empty_when_no_touched_cards() {
    let (ts, knowledge, team, sd) = setup(&[(0, 10, R3_MASK), (1, 20, R2_MASK)], &[], &[R1]);
    let pov = LightweightPlayerPOV::new(0, &knowledge, &team, &ts, &sd);
    assert!(ConventionTech::SimplePrompt.knowledge_updates(&clue(0, &[], ClueType::Color, 0, 0), &[], &pov).is_empty());
}
