#![allow(dead_code)]
use eel::engine::convention::convention_tech::ConventionTech;
use eel::engine::convention::hgroup::tech::delayed_play_clue::DelayedPlayClue;
use eel::engine::game_state_snapshot::GameStateSnapshot;
use eel::engine::knowledge::knowledge_update::{AltGroupKey, KnowledgeUpdate, PendingTrigger};
use eel::engine::knowledge::lightweight_player_pov::LightweightPlayerPOV;
use eel::engine::knowledge::player_knowledge::{knowledge_with_visible, PlayerKnowledge};
use eel::engine::knowledge::team_knowledge::TeamKnowledge;
use eel::game::action::{GameAction, TouchedCards};
use eel::game::card::CardIdentityMask;
use eel::game::clue::{Clue, ClueType};
use eel::game::static_game_data::StaticGameData;
use eel::game::table_state::TableState;
use eel::game::variant::Variant;

const R1: u8 = 0;
const R2: u8 = 1;
const R3: u8 = 2;
const Y1: u8 = 5;
const Y2: u8 = 6;
const G1: u8 = 10;
const G2: u8 = 11;
const B1: u8 = 15;
const B2: u8 = 16;
const P1: u8 = 20;
const P2: u8 = 21;
const P3: u8 = 22;
const R1_MASK: u64 = 1 << R1;
const R2_MASK: u64 = 1 << R2;
const R3_MASK: u64 = 1 << R3;
const Y1_MASK: u64 = 1 << Y1;
const Y2_MASK: u64 = 1 << Y2;
const G1_MASK: u64 = 1 << G1;
const G2_MASK: u64 = 1 << G2;
const B1_MASK: u64 = 1 << B1;
const B2_MASK: u64 = 1 << B2;
const P1_MASK: u64 = 1 << P1;
const P2_MASK: u64 = 1 << P2;
const P3_MASK: u64 = 1 << P3;
const R4: u8 = 3;
const R5: u8 = 4;
const R4_MASK: u64 = 1 << R4;
const R5_MASK: u64 = 1 << R5;
const Y5: u8 = 9;
const Y5_MASK: u64 = 1 << Y5;


fn five_players() -> StaticGameData {
    StaticGameData { number_of_players: 5, variant: Variant::no_variant() }
}

fn draw(ts: &mut TableState, sd: &StaticGameData, idx: u8) {
    ts.update_with_draw_action(sd, idx);
}


fn clue(player_index: usize, t: &[u8], clue_type: ClueType, clue_value: u8, turn: usize) -> GameAction {
    GameAction::Clue {
        player_index,
        touched_card_deck_indexes: TouchedCards::from_indexes(t.to_vec()),
        clue: Clue { clue_type, clue_value },
        turn,
    }
}

fn play(ts: &mut TableState, sd: &StaticGameData, id: u8) {
    ts.update_with_play_action_of_specific_card(sd, 0, id);
}

#[test]
fn game_actions_returns_empty_when_no_connecting_card_is_visible() {
    let sd = five_players();
    let mut ts = TableState::new(&sd);
    ts.active_player_index = 1;
    draw(&mut ts, &sd, 10);
    ts.active_player_index = 0;
    let knowledge = knowledge_with_visible(0, &[(10, R3_MASK)]);
    let team = TeamKnowledge::new(5);
    let pov = LightweightPlayerPOV::new(0, &knowledge, &team, &ts, &sd);
    assert!(ConventionTech::DelayedPlayClue.game_actions(&pov).is_empty());
}

#[test]
fn game_actions_returns_empty_when_focus_is_immediately_playable() {
    let sd = five_players();
    let mut ts = TableState::new(&sd);
    ts.active_player_index = 1;
    draw(&mut ts, &sd, 10);
    ts.active_player_index = 0;
    let knowledge = knowledge_with_visible(0, &[(10, R1_MASK)]);
    let team = TeamKnowledge::new(5);
    let pov = LightweightPlayerPOV::new(0, &knowledge, &team, &ts, &sd);
    assert!(ConventionTech::DelayedPlayClue.game_actions(&pov).is_empty());
}

#[test]
fn game_actions_generates_clue_when_connecting_card_is_visible_in_teammate_hand() {
    let sd = five_players();
    let mut ts = TableState::new(&sd);
    play(&mut ts, &sd, R1);
    ts.active_player_index = 1;
    draw(&mut ts, &sd, 10);
    ts.active_player_index = 2;
    draw(&mut ts, &sd, 20);
    ts.clue_touched_cards |= 1 << 20;
    ts.active_player_index = 0;
    let knowledge = knowledge_with_visible(0, &[(10, R3_MASK), (20, R2_MASK)]);
    let mut team = TeamKnowledge::new(5);
    team.player_mut(2).own_hand |= 1 << 20;
    team.player_mut(2).visible_cards |= 1 << 20;
    let pov = LightweightPlayerPOV::new(0, &knowledge, &team, &ts, &sd);
    let actions = ConventionTech::DelayedPlayClue.game_actions(&pov);
    assert!(actions.iter().any(|a| matches!(a, GameAction::Clue { player_index: 1, .. })));
    assert!(actions.iter().all(|a| !matches!(a, GameAction::Clue { player_index: 2, .. })));
}

#[test]
fn game_actions_does_not_use_own_ambiguous_card_as_connector() {
    let sd = five_players();
    let mut ts = TableState::new(&sd);
    play(&mut ts, &sd, R1);
    play(&mut ts, &sd, Y1);
    play(&mut ts, &sd, P1);
    ts.active_player_index = 0;
    draw(&mut ts, &sd, 10);
    ts.clue_touched_cards |= 1 << 10;
    ts.active_player_index = 1;
    draw(&mut ts, &sd, 20);
    ts.active_player_index = 0;
    let knowledge = knowledge_with_visible(0, &[(20, P3_MASK)]);
    let mut team = TeamKnowledge::new(5);
    team.player_mut(0).own_hand |= 1 << 10;
    team.player_mut(0).inferred_identities[10] = Some(CardIdentityMask::from_bits(R2_MASK | Y2_MASK | P2_MASK));
    let pov = LightweightPlayerPOV::new(0, &knowledge, &team, &ts, &sd);
    assert!(
        ConventionTech::DelayedPlayClue.game_actions(&pov).is_empty(),
        "must not propose a delayed play clue when the only connector is the giver's own ambiguous card"
    );
}

#[test]
fn game_actions_uses_own_exactly_known_card_as_connector() {
    let sd = five_players();
    let mut ts = TableState::new(&sd);
    play(&mut ts, &sd, R1);
    play(&mut ts, &sd, Y1);
    play(&mut ts, &sd, P1);
    ts.active_player_index = 0;
    draw(&mut ts, &sd, 10);
    ts.clue_touched_cards |= 1 << 10;
    ts.active_player_index = 1;
    draw(&mut ts, &sd, 20);
    ts.active_player_index = 0;
    let mut knowledge = knowledge_with_visible(0, &[(20, P3_MASK)]);
    knowledge.own_hand |= 1 << 10;
    knowledge.inferred_identities[10] = Some(CardIdentityMask::from_bits(P2_MASK));
    let mut team = TeamKnowledge::new(5);
    team.player_mut(0).own_hand |= 1 << 10;
    team.player_mut(0).inferred_identities[10] = Some(CardIdentityMask::from_bits(P2_MASK));
    let pov = LightweightPlayerPOV::new(0, &knowledge, &team, &ts, &sd);
    let actions = ConventionTech::DelayedPlayClue.game_actions(&pov);
    assert!(
        actions.iter().any(|a| matches!(a, GameAction::Clue { player_index: 1, .. })),
        "must propose a delayed play clue to p=1 when giver's own card is exactly-known P2"
    );
}

#[test]
fn game_actions_does_not_use_misidentified_teammate_card_as_connector() {
    let sd = five_players();
    let mut ts = TableState::new(&sd);
    ts.active_player_index = 1;
    draw(&mut ts, &sd, 10);
    ts.active_player_index = 2;
    draw(&mut ts, &sd, 20);
    ts.clue_touched_cards |= 1 << 20;
    ts.active_player_index = 0;
    let knowledge = knowledge_with_visible(0, &[(10, B2_MASK), (20, R1_MASK)]);
    let mut team = TeamKnowledge::new(5);
    team.player_mut(2).own_hand |= 1 << 20;
    team.player_mut(2).inferred_identities[20] =
        Some(CardIdentityMask::from_bits(R1_MASK | Y1_MASK | G1_MASK | B1_MASK | P1_MASK));
    let pov = LightweightPlayerPOV::new(0, &knowledge, &team, &ts, &sd);
    assert!(
        ConventionTech::DelayedPlayClue.game_actions(&pov).is_empty(),
        "must not propose a delayed play clue when the giver sees the connector candidate is actually a different card"
    );
}

#[test]
fn game_actions_does_not_clue_own_player() {
    let sd = five_players();
    let mut ts = TableState::new(&sd);
    play(&mut ts, &sd, R1);
    ts.active_player_index = 0;
    draw(&mut ts, &sd, 10);
    ts.active_player_index = 1;
    draw(&mut ts, &sd, 20);
    ts.clue_touched_cards |= 1 << 20;
    ts.active_player_index = 0;
    let knowledge = knowledge_with_visible(0, &[(10, R3_MASK), (20, R2_MASK)]);
    let mut team = TeamKnowledge::new(5);
    team.player_mut(1).own_hand |= 1 << 20;
    team.player_mut(1).visible_cards |= 1 << 20;
    let pov = LightweightPlayerPOV::new(0, &knowledge, &team, &ts, &sd);
    let actions = ConventionTech::DelayedPlayClue.game_actions(&pov);
    assert!(actions.iter().all(|a| !matches!(a, GameAction::Clue { player_index: 0, .. })));
}

#[test]
fn matches_action_true_when_focus_is_delayed_playable_with_connecting_card_visible() {
    let sd = five_players();
    let mut ts = TableState::new(&sd);
    play(&mut ts, &sd, R1);
    ts.active_player_index = 1;
    draw(&mut ts, &sd, 10);
    ts.active_player_index = 2;
    draw(&mut ts, &sd, 20);
    ts.clue_touched_cards |= 1 << 20;
    ts.active_player_index = 0;
    let knowledge = knowledge_with_visible(0, &[(10, R3_MASK), (20, R2_MASK)]);
    let mut team = TeamKnowledge::new(5);
    team.player_mut(0).inferred_identities[10] = Some(CardIdentityMask::from_bits(R3_MASK));
    team.player_mut(0).visible_cards |= 1 << 10;
    team.player_mut(0).inferred_identities[20] = Some(CardIdentityMask::from_bits(R2_MASK));
    team.player_mut(0).visible_cards |= 1 << 20;
    team.player_mut(2).own_hand |= 1 << 20;
    team.player_mut(2).visible_cards |= 1 << 20;
    let snapshot = GameStateSnapshot::new(ts.duplicate(), team.duplicate());
    let pov = LightweightPlayerPOV::new(0, &knowledge, &team, &ts, &sd);
    assert!(ConventionTech::DelayedPlayClue.matches_action(&clue(1, &[10], ClueType::Color, 0, 1), &[snapshot], &pov));
}

#[test]
fn matches_action_false_when_focus_is_immediately_playable() {
    let sd = five_players();
    let mut ts = TableState::new(&sd);
    ts.active_player_index = 1;
    draw(&mut ts, &sd, 10);
    ts.active_player_index = 0;
    let knowledge = knowledge_with_visible(0, &[(10, R1_MASK)]);
    let mut team = TeamKnowledge::new(5);
    team.player_mut(0).inferred_identities[10] = Some(CardIdentityMask::from_bits(R1_MASK));
    team.player_mut(0).visible_cards |= 1 << 10;
    let snapshot = GameStateSnapshot::new(ts.duplicate(), team.duplicate());
    let pov = LightweightPlayerPOV::new(0, &knowledge, &team, &ts, &sd);
    assert!(!ConventionTech::DelayedPlayClue.matches_action(&clue(1, &[10], ClueType::Rank, 1, 1), &[snapshot], &pov));
}

#[test]
fn matches_action_false_when_connecting_card_not_visible() {
    let sd = five_players();
    let mut ts = TableState::new(&sd);
    ts.active_player_index = 1;
    draw(&mut ts, &sd, 10);
    ts.active_player_index = 0;
    let knowledge = knowledge_with_visible(0, &[(10, R3_MASK)]);
    let mut team = TeamKnowledge::new(5);
    team.player_mut(0).inferred_identities[10] = Some(CardIdentityMask::from_bits(R3_MASK));
    team.player_mut(0).visible_cards |= 1 << 10;
    let snapshot = GameStateSnapshot::new(ts.duplicate(), team.duplicate());
    let pov = LightweightPlayerPOV::new(0, &knowledge, &team, &ts, &sd);
    assert!(!ConventionTech::DelayedPlayClue.matches_action(&clue(1, &[10], ClueType::Color, 0, 1), &[snapshot], &pov));
}

#[test]
fn delayed_play_clue_matches_action_false_for_non_clue_action() {
    let sd = five_players();
    let ts = TableState::new(&sd);
    let knowledge = PlayerKnowledge::new(0);
    let team = TeamKnowledge::new(5);
    let pov = LightweightPlayerPOV::new(0, &knowledge, &team, &ts, &sd);
    assert!(!ConventionTech::DelayedPlayClue.matches_action(&GameAction::Play { player_index: 0, card_deck_index: 5, turn: 1 }, &[], &pov));
}

#[test]
fn knowledge_updates_narrows_focus_to_delayed_playable_ids() {
    let sd = five_players();
    let mut ts = TableState::new(&sd);
    play(&mut ts, &sd, R1);
    ts.active_player_index = 0;
    draw(&mut ts, &sd, 10);
    ts.clue_touched_cards |= 1 << 10;
    ts.active_player_index = 1;
    draw(&mut ts, &sd, 20);
    ts.clue_touched_cards |= 1 << 20;
    ts.active_player_index = 0;
    let knowledge = knowledge_with_visible(0, &[(10, R3_MASK), (20, R2_MASK)]);
    let mut team = TeamKnowledge::new(5);
    team.player_mut(0).inferred_identities[10] = Some(CardIdentityMask::from_bits(R3_MASK));
    team.player_mut(0).visible_cards |= 1u64 << 10;
    team.player_mut(0).inferred_identities[20] = Some(CardIdentityMask::from_bits(R2_MASK));
    team.player_mut(0).visible_cards |= 1u64 << 20;
    team.player_mut(1).own_hand |= 1 << 20;
    team.player_mut(1).visible_cards |= 1 << 20;
    let snapshot = GameStateSnapshot::new(ts.duplicate(), team.duplicate());
    let pov = LightweightPlayerPOV::new(0, &knowledge, &team, &ts, &sd);
    let updates = ConventionTech::DelayedPlayClue.knowledge_updates(&clue(0, &[10], ClueType::Color, 0, 1), &[snapshot], &pov);
    assert_eq!(updates.immediate.len(), 1);
    assert!(updates.trigger.is_none());
    if let KnowledgeUpdate::NarrowPossibilities { card_deck_index, mask } = &updates.immediate[0] {
        assert_eq!(*card_deck_index, 10);
        assert_ne!(mask & R3_MASK, 0, "R3 should be in the mask");
        assert_eq!(mask & R1_MASK, 0, "R1 (played) should not be in the mask");
        assert_eq!(mask & R2_MASK, 0, "R2 (immediately playable) should not be in the mask");
    } else {
        panic!("expected NarrowPossibilities");
    }
}

#[test]
fn delayed_play_clue_knowledge_updates_returns_empty_when_no_touched_cards() {
    let sd = five_players();
    let mut ts = TableState::new(&sd);
    draw(&mut ts, &sd, 10);
    let knowledge = knowledge_with_visible(0, &[(10, R3_MASK)]);
    let team = TeamKnowledge::new(5);
    let snapshot = GameStateSnapshot::new(ts.duplicate(), team.duplicate());
    let pov = LightweightPlayerPOV::new(0, &knowledge, &team, &ts, &sd);
    assert!(ConventionTech::DelayedPlayClue.knowledge_updates(&clue(0, &[], ClueType::Color, 0, 1), &[snapshot], &pov).is_empty());
}

#[test]
fn knowledge_updates_returns_empty_when_no_delayed_playable_ids_exist() {
    let sd = five_players();
    let mut ts = TableState::new(&sd);
    for card_id in 0u8..25 {
        play(&mut ts, &sd, card_id);
    }
    ts.active_player_index = 0;
    draw(&mut ts, &sd, 10);
    ts.clue_touched_cards |= 1 << 10;
    let knowledge = knowledge_with_visible(0, &[(10, R3_MASK)]);
    let team = TeamKnowledge::new(5);
    let snapshot = GameStateSnapshot::new(ts.duplicate(), team.duplicate());
    let pov = LightweightPlayerPOV::new(0, &knowledge, &team, &ts, &sd);
    assert!(ConventionTech::DelayedPlayClue.knowledge_updates(&clue(1, &[10], ClueType::Color, 0, 1), &[snapshot], &pov).is_empty());
}

#[test]
fn knowledge_updates_recognizes_delayed_play_via_ambiguous_known_playable_one() {
    let sd = five_players();
    let mut ts = TableState::new(&sd);
    play(&mut ts, &sd, B1);
    play(&mut ts, &sd, P1);
    ts.active_player_index = 1;
    draw(&mut ts, &sd, 40);
    ts.active_player_index = 2;
    draw(&mut ts, &sd, 30);
    ts.clue_touched_cards |= 1 << 30;
    ts.active_player_index = 0;
    let known_playable_one_mask = R1_MASK | Y1_MASK | G1_MASK;
    let rank2_mask = R2_MASK | Y2_MASK | G2_MASK | B2_MASK | P2_MASK;
    let mut team = TeamKnowledge::new(5);
    team.player_mut(0).inferred_identities[40] = Some(CardIdentityMask::from_bits(R2_MASK));
    team.player_mut(0).visible_cards |= 1u64 << 40;
    team.player_mut(0).inferred_identities[30] = Some(CardIdentityMask::from_bits(R1_MASK));
    team.player_mut(0).visible_cards |= 1u64 << 30;
    team.player_mut(2).own_hand |= 1 << 30;
    team.player_mut(2).inferred_identities[30] = Some(CardIdentityMask::from_bits(known_playable_one_mask));
    team.player_mut(1).own_hand |= 1u64 << 40;
    team.player_mut(1).inferred_identities[40] = Some(CardIdentityMask::from_bits(rank2_mask));
    let snapshot = GameStateSnapshot::new(ts.duplicate(), team.duplicate());
    ts.active_player_index = 1;
    let mut p1_knowledge = PlayerKnowledge::new(1);
    p1_knowledge.own_hand = 1u64 << 40;
    p1_knowledge.inferred_identities[40] = Some(CardIdentityMask::from_bits(rank2_mask));
    let pov = LightweightPlayerPOV::new(1, &p1_knowledge, &team, &ts, &sd);
    let updates = ConventionTech::DelayedPlayClue.knowledge_updates(&clue(1, &[40], ClueType::Rank, 2, 1), &[snapshot], &pov);
    assert_eq!(updates.immediate.len(), 1);
    if let KnowledgeUpdate::NarrowPossibilities { card_deck_index, mask } = &updates.immediate[0] {
        assert_eq!(*card_deck_index, 40);
        assert_ne!(mask & R2_MASK, 0, "R2 should be in the delayed-play mask");
        assert_ne!(mask & Y2_MASK, 0, "Y2 should be in the delayed-play mask");
        assert_ne!(mask & G2_MASK, 0, "G2 should be in the delayed-play mask");
        assert_eq!(mask & B2_MASK, 0, "B2 (directly playable) must not be in delayed mask");
        assert_eq!(mask & P2_MASK, 0, "P2 (directly playable) must not be in delayed mask");
    } else {
        panic!("expected NarrowPossibilities");
    }
}

#[test]
fn clue_knowledge_updates_multi_emits_per_connecting_id_subhypotheses() {
    let sd = five_players();
    let mut ts = TableState::new(&sd);
    play(&mut ts, &sd, B1);
    play(&mut ts, &sd, P1);
    ts.active_player_index = 0;
    draw(&mut ts, &sd, 30);
    draw(&mut ts, &sd, 10);
    ts.clue_touched_cards |= 1 << 10;
    ts.active_player_index = 1;
    let known_playable_one_mask = R1_MASK | Y1_MASK | G1_MASK;
    let mut p0_knowledge = PlayerKnowledge::new(0);
    p0_knowledge.own_hand = (1u64 << 30) | (1u64 << 10);
    p0_knowledge.inferred_identities[10] = Some(CardIdentityMask::from_bits(known_playable_one_mask));
    let mut team = TeamKnowledge::new(5);
    team.player_mut(0).own_hand = (1u64 << 30) | (1u64 << 10);
    team.player_mut(0).inferred_identities[10] = Some(CardIdentityMask::from_bits(known_playable_one_mask));
    let rank2_mask = R2_MASK | Y2_MASK | G2_MASK | B2_MASK | P2_MASK;
    p0_knowledge.inferred_identities[30] = Some(CardIdentityMask::from_bits(rank2_mask));
    team.player_mut(0).inferred_identities[30] = Some(CardIdentityMask::from_bits(rank2_mask));
    let snapshot = GameStateSnapshot::new(ts.duplicate(), team.duplicate());
    let pov = LightweightPlayerPOV::new(0, &p0_knowledge, &team, &ts, &sd);
    let updates = DelayedPlayClue.clue_knowledge_updates_multi(
        0,
        &[30],
        &Clue { clue_type: ClueType::Rank, clue_value: 2 },
        0,
        &[snapshot],
        &pov,
    );
    assert_eq!(updates.len(), 3, "expected three identity-keyed sub-hypotheses (one per candidate connecting id)");
    let mut got_masks: Vec<u64> = Vec::new();
    let mut got_alt_groups: Vec<Option<AltGroupKey>> = Vec::new();
    for h in &updates {
        assert_eq!(h.immediate.len(), 1);
        match &h.immediate[0] {
            KnowledgeUpdate::NarrowPossibilities { card_deck_index, mask } => {
                assert_eq!(*card_deck_index, 30);
                got_masks.push(*mask);
            }
            _ => panic!("expected NarrowPossibilities"),
        }
        match &h.trigger {
            Some(PendingTrigger::BlindPlay { player, expected_card, expected_identity, .. }) => {
                assert_eq!(*player, 0, "trigger should fire on player 0 playing");
                assert_eq!(*expected_card, 10, "trigger should key on connecting deck idx");
                assert!(expected_identity.is_some(), "trigger must be identity-keyed for selective rejection");
            }
            _ => panic!("expected BlindPlay trigger"),
        }
        got_alt_groups.push(h.alt_group);
    }
    got_masks.sort();
    let mut expected_masks = vec![R2_MASK, Y2_MASK, G2_MASK];
    expected_masks.sort();
    assert_eq!(got_masks, expected_masks);
    assert!(got_alt_groups.iter().all(|g| *g == Some(10)), "all sub-hypotheses must share alt_group keyed on connecting card index");
}
