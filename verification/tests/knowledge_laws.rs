use eel::engine::convention::convention_tech::ConventionTech;
use eel::engine::convention::hgroup::h_group_convention_set::HGroupConventionSet;
use eel::engine::knowledge::knowledge_update::{Hypothesis, KnowledgeUpdate, PendingTrigger};
use eel::engine::knowledge::lightweight_player_pov::LightweightPlayerPOV;
use eel::engine::knowledge::player_knowledge::PlayerKnowledge;
use eel::engine::knowledge_aware_game_state::KnowledgeAwareGameState;
use eel::game::action::{GameAction, TouchedCards};
use eel::game::clue::{Clue, ClueType};
use eel::game::static_game_data::StaticGameData;
use eel::game::variant::Variant;

const R1_MASK: u64 = 1 << 0;
const R2_MASK: u64 = 1 << 1;
const Y1_MASK: u64 = 1 << 5;

fn inferred(k: &PlayerKnowledge, idx: usize) -> Option<u64> {
    k.inferred_identities[idx].as_ref().map(|m| m.as_bits())
}

fn narrow(idx: u8, mask: u64) -> KnowledgeUpdate {
    KnowledgeUpdate::NarrowPossibilities { card_deck_index: idx, mask }
}

fn blind_play_by(player: usize, card: u8) -> PendingTrigger {
    PendingTrigger::BlindPlay { player, expected_card: card, expected_identity: None, deadline_turn: 5 }
}

#[test]
fn narrowing_never_widens_nor_empties_a_card() {
    let v = Variant::no_variant();
    let mut k = PlayerKnowledge::new(0);
    k.narrow_inferred(3, R1_MASK | R2_MASK, &v);
    assert_eq!(inferred(&k, 3), Some(R1_MASK | R2_MASK));
    k.narrow_inferred(3, R2_MASK | Y1_MASK, &v);
    assert_eq!(inferred(&k, 3), Some(R2_MASK));
    assert_ne!(k.visible_cards & (1 << 3), 0);
    k.narrow_inferred(3, Y1_MASK, &v);
    assert_eq!(inferred(&k, 3), Some(R2_MASK));
}

#[test]
fn a_lone_unconditional_hypothesis_is_baked_without_an_id() {
    let v = Variant::no_variant();
    let mut k = PlayerKnowledge::new(0);
    let mut next_id = 7;
    k.apply_cohort(1, vec![(0, Hypothesis::unconditional(vec![narrow(3, R1_MASK | R2_MASK)]))], &mut next_id, &v);
    assert_eq!(next_id, 7);
    assert!(k.hypotheses.is_empty());
    assert_eq!(inferred(&k, 3), Some(R1_MASK | R2_MASK));
}

#[test]
fn effective_identities_stay_within_the_baseline() {
    let v = Variant::no_variant();
    let mut k = PlayerKnowledge::new(0);
    k.narrow_inferred(3, R1_MASK | R2_MASK, &v);
    let mut next_id = 0;
    k.apply_cohort(1, vec![(0, Hypothesis::provisional(vec![narrow(3, R2_MASK | Y1_MASK)], blind_play_by(1, 9)))], &mut next_id, &v);
    assert_eq!(k.hypotheses.len(), 1);
    assert_eq!(k.effective_inferred_mask(3, &v).as_bits(), R2_MASK);
    assert_eq!(inferred(&k, 3), Some(R1_MASK | R2_MASK));
}

#[test]
fn the_actors_next_action_settles_its_pending_hypotheses() {
    let v = Variant::no_variant();
    let mut confirmed = PlayerKnowledge::new(0);
    confirmed.narrow_inferred(3, R1_MASK | R2_MASK, &v);
    let mut next_id = 0;
    confirmed.apply_cohort(1, vec![(0, Hypothesis::provisional(vec![narrow(3, R2_MASK | Y1_MASK)], blind_play_by(1, 9)))], &mut next_id, &v);
    let mut rejected = confirmed.duplicate();

    confirmed.resolve_pending(1, &GameAction::Play { player_index: 1, card_deck_index: 9, turn: 5 }, None, &v);
    assert!(confirmed.hypotheses.is_empty());
    assert_eq!(inferred(&confirmed, 3), Some(R2_MASK));

    rejected.resolve_pending(1, &GameAction::Discard { player_index: 1, card_deck_index: 9, turn: 5 }, None, &v);
    assert!(rejected.hypotheses.is_empty());
    assert_eq!(inferred(&rejected, 3), Some(R1_MASK | R2_MASK));
}

#[test]
fn another_players_action_leaves_the_hypothesis_pending() {
    let v = Variant::no_variant();
    let mut k = PlayerKnowledge::new(0);
    let mut next_id = 0;
    k.apply_cohort(1, vec![(0, Hypothesis::provisional(vec![narrow(3, R2_MASK)], blind_play_by(1, 9)))], &mut next_id, &v);
    k.resolve_pending(2, &GameAction::Discard { player_index: 2, card_deck_index: 11, turn: 4 }, None, &v);
    assert_eq!(k.hypotheses.len(), 1);
}

#[test]
fn a_clue_never_widens_the_receivers_knowledge() {
    let sd = StaticGameData { number_of_players: 3, variant: Variant::no_variant() };
    let mut state = KnowledgeAwareGameState::new(sd);
    state.update_with_draw_action_of_specific_card(0, 0, 0);
    state.update_with_draw_action_of_specific_card(0, 1, 1);
    let before: Vec<u64> = (0..2u8)
        .map(|i| state.team_knowledge.player(0).combined_possible_identities(i, state.table_state(), state.static_data()).as_bits())
        .collect();
    state.table_state.active_player_index = 1;
    let action = GameAction::Clue {
        player_index: 0,
        touched_card_deck_indexes: TouchedCards::from_indexes(vec![0, 1]),
        clue: Clue { clue_type: ClueType::Color, clue_value: 0 },
        turn: 0,
    };
    let conv = HGroupConventionSet::new(vec![ConventionTech::DirectPlayClue]);
    let knowledge = state.team_knowledge.player(1).duplicate();
    let team = state.team_knowledge.duplicate();
    let table = state.table_state.duplicate();
    let sd = state.static_data().clone();
    let truth = LightweightPlayerPOV::new(1, &knowledge, &team, &table, &sd);
    state.apply(&action, &conv, &truth);
    for i in 0..2u8 {
        let after = state.team_knowledge.player(0).combined_possible_identities(i, state.table_state(), state.static_data()).as_bits();
        assert_ne!(after, 0);
        assert_eq!(after & !before[i as usize], 0, "card {i} gained an identity");
        assert!(after.count_ones() < before[i as usize].count_ones());
    }
}

#[test]
fn a_clue_never_widens_any_seats_baseline() {
    let sd = StaticGameData { number_of_players: 3, variant: Variant::no_variant() };
    let mut state = KnowledgeAwareGameState::new(sd);
    // R1, R2 to player 0; Y1, Y2 to player 1; R3, B1 to player 2.
    let deal: [(usize, u8, u8); 6] = [(0, 0, 0), (0, 1, 1), (1, 2, 5), (1, 3, 6), (2, 4, 2), (2, 5, 20)];
    for (p, idx, id) in deal {
        state.table_state.active_player_index = p;
        state.update_with_draw_action_of_specific_card(p, idx, id);
    }
    state.table_state.active_player_index = 1;
    let all: u64 = (1 << 25) - 1;
    let baseline = |s: &KnowledgeAwareGameState, p: usize, idx: usize| inferred(s.team_knowledge.player(p), idx).unwrap_or(all);
    let before: Vec<Vec<u64>> = (0..3).map(|p| (0..60).map(|idx| baseline(&state, p, idx)).collect()).collect();
    let action = GameAction::Clue {
        player_index: 0,
        touched_card_deck_indexes: TouchedCards::from_indexes(vec![0]),
        clue: Clue { clue_type: ClueType::Rank, clue_value: 1 },
        turn: 0,
    };
    let conv = HGroupConventionSet::default();
    let knowledge = state.team_knowledge.player(1).duplicate();
    let team = state.team_knowledge.duplicate();
    let table = state.table_state.duplicate();
    let sd = state.static_data().clone();
    let truth = LightweightPlayerPOV::new(1, &knowledge, &team, &table, &sd);
    state.apply(&action, &conv, &truth);
    let mut narrowed = 0;
    for p in 0..3 {
        for idx in 0..60 {
            let after = baseline(&state, p, idx);
            assert_eq!(after & !before[p][idx], 0, "seat {p}, card {idx} gained an identity");
            if after != before[p][idx] {
                narrowed += 1;
            }
        }
    }
    assert!(narrowed > 0);
}
