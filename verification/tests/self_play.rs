use eel::engine::action_selection_strategy::ActionSelectionStrategy;
use eel::engine::convention::hgroup::h_group_convention_set::HGroupConventionSet;
use eel::engine::greedy_action_selection_strategy::GreedyActionSelectionStrategy;
use eel::engine::knowledge_aware_game_state::KnowledgeAwareGameState;
use eel::engine::dummy_action_selection_strategy::DummyActionSelectionStrategy;
use eel::engine::self_play::{action_fits, fits_game, hand_size, play_game, shuffled_deck};
use eel::game::action::{GameAction, TouchedCards};
use eel::game::clue::{Clue, ClueType};
use eel::game::static_game_data::StaticGameData;
use eel::game::variant::Variant;
use rand::rngs::SmallRng;
use rand::SeedableRng;

fn three_players() -> StaticGameData {
    StaticGameData { number_of_players: 3, variant: Variant::no_variant() }
}

#[test]
fn hands_are_five_cards_up_to_three_players_else_four() {
    assert_eq!(hand_size(2), 5);
    assert_eq!(hand_size(3), 5);
    assert_eq!(hand_size(4), 4);
    assert_eq!(hand_size(5), 4);
}

#[test]
fn only_actions_within_the_rules_fit() {
    let sd = three_players();
    let clue = |receiver: usize, touched: Vec<u8>| GameAction::Clue {
        player_index: receiver,
        touched_card_deck_indexes: TouchedCards::from_indexes(touched),
        clue: Clue { clue_type: ClueType::Rank, clue_value: 1 },
        turn: 0,
    };
    assert!(action_fits(&GameAction::Play { player_index: 0, card_deck_index: 4, turn: 0 }, &sd, 8));
    assert!(!action_fits(&GameAction::Discard { player_index: 0, card_deck_index: 60, turn: 0 }, &sd, 8));
    assert!(!action_fits(&GameAction::Play { player_index: 3, card_deck_index: 4, turn: 0 }, &sd, 8));
    assert!(action_fits(&clue(1, vec![5, 6]), &sd, 1));
    assert!(!action_fits(&clue(1, vec![5, 6]), &sd, 0));
    assert!(!action_fits(&clue(1, vec![5, 61]), &sd, 3));
    assert!(!action_fits(&clue(3, vec![5]), &sd, 3));
    assert!(!action_fits(&GameAction::Draw { player_index: 0, card_deck_index: 4 }, &sd, 8));
}

#[test]
fn a_whole_game_runs_to_its_end() {
    let sd = three_players();
    let mut rng = SmallRng::seed_from_u64(7);
    let deck = shuffled_deck(&sd.variant, &mut rng);
    assert_eq!(deck.len(), 50);
    let conventions = HGroupConventionSet::default();
    let (state, completed) = play_game(&deck, &sd, &conventions, &DummyActionSelectionStrategy {});
    assert!(completed);
    let table = state.table_state();
    let score = table.score(state.static_data());
    assert!(score as u32 + state.phantom_plays() as u32 <= 25);
    assert!(table.strike_tokens >= 3 || table.deck_size == 0 || score as u32 + state.phantom_plays() as u32 == 25);
    // 15 cards dealt, then one card drawn per play or discard.
    assert!(state.next_deck_position() as usize + table.deck_size as usize == 50);
}

#[test]
fn only_a_full_deck_of_the_variant_fits_a_game() {
    let sd = three_players();
    let mut rng = SmallRng::seed_from_u64(3);
    let deck = shuffled_deck(&sd.variant, &mut rng);
    assert!(fits_game(&deck, &sd));
    let mut short = deck.clone();
    short.pop();
    assert!(!fits_game(&short, &sd));
    let mut foreign = deck.clone();
    foreign[0] = 25;
    assert!(!fits_game(&foreign, &sd));
    let one_player = StaticGameData { number_of_players: 1, variant: Variant::no_variant() };
    assert!(!fits_game(&deck, &one_player));
}

#[test]
fn a_whole_game_with_the_greedy_strategy_runs_to_its_end() {
    let sd = three_players();
    let mut rng = SmallRng::seed_from_u64(11);
    let deck = shuffled_deck(&sd.variant, &mut rng);
    let conventions = HGroupConventionSet::default();
    let (state, completed) = play_game(&deck, &sd, &conventions, &GreedyActionSelectionStrategy {});
    assert!(completed);
    let table = state.table_state();
    let total = table.score(state.static_data()) as u32 + state.phantom_plays() as u32;
    assert!(total <= 25);
    assert!(table.strike_tokens >= 3 || table.deck_size == 0 || total == 25);
}

#[test]
fn the_greedy_strategy_takes_the_first_convention_action() {
    let sd = three_players();
    let mut state = KnowledgeAwareGameState::new(sd.clone());
    let deck: Vec<u8> = (0..50).map(|i| [0u8, 5, 10, 15, 20][i % 5]).collect();
    state.deal(&deck, 5);
    let conventions = HGroupConventionSet::default();
    let pov = state.player_pov(0);
    let chosen = GreedyActionSelectionStrategy {}.select_active_player_action(&pov, &conventions);
    let mut expected = None;
    for tech in conventions.techs() {
        if let Some(a) = tech.game_actions(&pov).into_iter().next() {
            expected = Some(a);
            break;
        }
    }
    let expected = expected.unwrap_or_else(|| pov.valid_actions().into_iter().next().unwrap());
    assert_eq!(chosen, expected);
}
