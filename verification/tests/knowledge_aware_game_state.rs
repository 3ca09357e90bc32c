#![allow(dead_code)]
use eel::engine::play_resolver::{DrawnCard, GroundTruthResolver, PlayResolver, ResolvedPlay};
use eel::engine::convention::convention_tech::ConventionTech;
use eel::engine::convention::hgroup::h_group_convention_set::HGroupConventionSet;
use eel::engine::knowledge::lightweight_player_pov::LightweightPlayerPOV;
use eel::engine::knowledge_aware_game_state::KnowledgeAwareGameState;
use eel::game::action::{GameAction, TouchedCards};
use eel::game::card::CardIdentityMask;
use eel::game::clue::{Clue, ClueType};
use eel::game::static_game_data::StaticGameData;
use eel::game::variant::Variant;

fn make_state() -> KnowledgeAwareGameState {
    let static_data = StaticGameData { number_of_players: 3, variant: Variant::no_variant() };
    KnowledgeAwareGameState::new(static_data)
}

#[test]
fn draw_with_known_identity_makes_card_visible_to_other_players() {
    let mut state = make_state();
    let card_deck_index = 5;
    let card_id = 3;
    state.update_with_draw_action_of_specific_card(0, card_deck_index, card_id);
    assert_ne!(state.team_knowledge().player(1).visible_cards & (1 << card_deck_index), 0);
    assert_ne!(state.team_knowledge().player(2).visible_cards & (1 << card_deck_index), 0);
    assert_eq!(state.team_knowledge().player(0).visible_cards & (1 << card_deck_index), 0);
}

#[test]
fn draw_with_known_identity_puts_card_in_drawers_own_hand() {
    let mut state = make_state();
    let card_deck_index = 5;
    state.update_with_draw_action_of_specific_card(0, card_deck_index, 3);
    assert_ne!(state.team_knowledge().player(0).own_hand & (1 << card_deck_index), 0);
}

#[test]
fn draw_with_known_identity_does_not_narrow_drawers_empathy() {
    let mut state = make_state();
    let card_deck_index = 5;
    let card_id = 3;
    let variant = Variant::no_variant();
    state.update_with_draw_action_of_specific_card(0, card_deck_index, card_id);
    let combined = state.team_knowledge().player(0).combined_possible_identities(
        card_deck_index,
        state.table_state(),
        state.static_data(),
    );
    assert_eq!(combined.as_bits(), CardIdentityMask::all(&variant).as_bits(), "drawer should not know the card's identity");
}

#[test]
fn play_removes_card_from_own_hand() {
    let mut state = make_state();
    let card_deck_index = 0;
    state.update_with_draw_action_of_specific_card(0, card_deck_index, 0);
    state.update_with_play_action_of_specific_card(card_deck_index, 0);
    assert_eq!(state.team_knowledge().player(0).own_hand & (1 << card_deck_index), 0);
}

#[test]
fn discard_removes_card_from_own_hand() {
    let mut state = make_state();
    let card_deck_index = 0;
    state.update_with_draw_action_of_specific_card(0, card_deck_index, 1);
    state.update_with_discard_action_of_specific_card(card_deck_index, 1);
    assert_eq!(state.team_knowledge().player(0).own_hand & (1 << card_deck_index), 0);
}

#[test]
fn phantom_play_advances_score_without_touching_stacks() {
    let mut state = make_state();
    state.update_with_draw_action_of_specific_card(0, 0, 5);
    state.next_deck_index = 1;
    let ones_mask: u64 = (1 << 0) | (1 << 5) | (1 << 10) | (1 << 15) | (1 << 20);
    state.team_knowledge.player_mut(0).inferred_identities[0] = Some(CardIdentityMask::from_bits(ones_mask));
    let variant = Variant::no_variant();
    let pre_stack_total = state.table_state.score(state.static_data());
    let pre_score = state.score(&variant);
    assert_eq!(state.phantom_plays(), 0);
    let conventions = HGroupConventionSet::new(vec![]);
    let play_action = GameAction::Play { player_index: 0, card_deck_index: 0, turn: 0 };
    let knowledge_clone = state.team_knowledge.player(0).duplicate();
    let team_clone = state.team_knowledge.duplicate();
    let table_clone = state.table_state.duplicate();
    let static_clone = state.static_data().clone();
    let truth = LightweightPlayerPOV::new(0, &knowledge_clone, &team_clone, &table_clone, &static_clone);
    state.apply(&play_action, &conventions, &truth);
    assert_eq!(state.phantom_plays(), 1, "phantom_plays should increment for an ambiguous-but-playable play");
    assert_eq!(state.table_state.score(state.static_data()), pre_stack_total, "no concrete stack should advance for a phantom play");
    assert_eq!(state.score(&variant), pre_score + 1, "engine-effective score should reflect the phantom play");
    assert_eq!(state.team_knowledge().player(0).own_hand & 1, 0);
}

#[test]
fn phantom_play_does_not_fire_when_identity_is_fully_resolved() {
    let mut state = make_state();
    state.update_with_draw_action_of_specific_card(0, 0, 0);
    state.next_deck_index = 1;
    state.team_knowledge.player_mut(0).inferred_identities[0] = Some(CardIdentityMask::from_bits(1));
    let variant = Variant::no_variant();
    let conventions = HGroupConventionSet::new(vec![]);
    let knowledge_clone = state.team_knowledge.player(0).duplicate();
    let team_clone = state.team_knowledge.duplicate();
    let table_clone = state.table_state.duplicate();
    let static_clone = state.static_data().clone();
    let truth = LightweightPlayerPOV::new(0, &knowledge_clone, &team_clone, &table_clone, &static_clone);
    state.apply(&GameAction::Play { player_index: 0, card_deck_index: 0, turn: 0 }, &conventions, &truth);
    assert_eq!(state.phantom_plays(), 0);
    assert_eq!(state.table_state.score(state.static_data()), 1);
    assert_eq!(state.score(&variant), 1);
}

#[test]
fn player_pov_can_be_created_for_any_player() {
    let mut state = make_state();
    state.update_with_draw_action_of_specific_card(0, 7, 2);
    let _ = state.player_pov(0);
    let _ = state.player_pov(1);
    let _ = state.player_pov(2);
}

#[test]
fn clue_focus_is_chop_not_leftmost_when_chop_is_newly_touched() {
    let static_data = StaticGameData { number_of_players: 3, variant: Variant::no_variant() };
    let mut state = KnowledgeAwareGameState::new(static_data);
    state.update_with_draw_action_of_specific_card(0, 0, 0);
    state.update_with_draw_action_of_specific_card(0, 1, 1);
    state.table_state.active_player_index = 1;
    let clue = Clue { clue_type: ClueType::Color, clue_value: 0 };
    let action = GameAction::Clue {
        player_index: 0,
        touched_card_deck_indexes: TouchedCards::from_indexes(vec![0, 1]),
        clue,
        turn: 0,
    };
    let conv = HGroupConventionSet::new(vec![ConventionTech::DirectPlayClue]);
    let knowledge_clone = state.team_knowledge.player(1).duplicate();
    let team_clone = state.team_knowledge.duplicate();
    let table_clone = state.table_state.duplicate();
    let static_clone = state.static_data().clone();
    let truth = LightweightPlayerPOV::new(1, &knowledge_clone, &team_clone, &table_clone, &static_clone);
    state.apply(&action, &conv, &truth);
    let alice = state.team_knowledge.player(0);
    let deck0_empathy = alice.combined_possible_identities(0, state.table_state(), state.static_data()).as_bits();
    assert_eq!(deck0_empathy, 1u64, "chop (deck[0]=R1) should be narrowed to {{R1}} by DirectPlayClue as focus; got {deck0_empathy:025b}");
    let deck1_empathy = alice.combined_possible_identities(1, state.table_state(), state.static_data()).as_bits();
    let red_mask: u64 = 0b11111;
    assert_eq!(deck1_empathy & red_mask, red_mask, "non-focus (deck[1]=R2) should retain all red identities; got {deck1_empathy:025b}");
}

#[test]
fn the_ground_truth_resolver_reads_the_deck_for_any_player() {
    let deck: Vec<u8> = vec![3, 7, 11];
    let state = KnowledgeAwareGameState::new(StaticGameData { number_of_players: 2, variant: Variant::no_variant() });
    let mut resolver = GroundTruthResolver::new(&deck);
    assert_eq!(resolver.resolve_play(4, 1, &state), ResolvedPlay::Known(7));
    assert_eq!(resolver.resolve_discard(9, 2, &state), Some(11));
    assert_eq!(resolver.draw_next(0, 0), DrawnCard::Empty);
    assert_eq!(resolver.draw_next(5, 2), DrawnCard::Known { card_id: 11 });
}
