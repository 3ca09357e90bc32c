use eel::engine::convention::convention_tech::ConventionTech;
use eel::engine::convention::hgroup::signal::Signal;
use eel::engine::knowledge::lightweight_player_pov::LightweightPlayerPOV;
use eel::engine::knowledge::player_knowledge::PlayerKnowledge;
use eel::engine::knowledge::team_knowledge::TeamKnowledge;
use eel::game::action::GameAction;
use eel::game::card::{CardDeckIndex, CardIdentityMask};
use eel::game::static_game_data::StaticGameData;
use eel::game::table_state::TableState;
use eel::game::variant::Variant;

const R2: u8 = 1;
const R2_MASK: u64 = 1 << R2;

fn five_players() -> StaticGameData {
    StaticGameData { number_of_players: 5, variant: Variant::no_variant() }
}

fn draw(ts: &mut TableState, sd: &StaticGameData, idx: u8) {
    ts.update_with_draw_action(sd, idx);
}


fn pov_with_signal(card_deck_index: CardDeckIndex, signal: Signal, touched: bool) -> (TableState, PlayerKnowledge, TeamKnowledge, StaticGameData) {
    let sd = five_players();
    let mut ts = TableState::new(&sd);
    draw(&mut ts, &sd, card_deck_index);
    if touched {
        ts.clue_touched_cards |= 1 << card_deck_index;
    }
    ts.active_player_index = 0;
    let mut knowledge = PlayerKnowledge::new(0);
    knowledge.own_hand = 1 << card_deck_index;
    knowledge.inferred_identities[card_deck_index as usize] = Some(CardIdentityMask::from_bits(R2_MASK));
    knowledge.signals[card_deck_index as usize].push(signal);
    let mut team = TeamKnowledge::new(5);
    team.player_mut(0).own_hand = 1 << card_deck_index;
    team.player_mut(0).signals[card_deck_index as usize].push(signal);
    (ts, knowledge, team, sd)
}

fn play_signal(card_deck_index: CardDeckIndex) -> Signal {
    Signal::Play { card_deck_index, committed_identity: R2 }
}

#[test]
fn generates_play_action_for_untouched_card_with_play_signal() {
    let (ts, knowledge, team, sd) = pov_with_signal(5, play_signal(5), false);
    let pov = LightweightPlayerPOV::new(0, &knowledge, &team, &ts, &sd);
    let actions = ConventionTech::BlindPlay.game_actions(&pov);
    assert_eq!(actions, vec![GameAction::Play { player_index: 0, card_deck_index: 5, turn: 0 }]);
}

#[test]
fn no_action_for_touched_card_with_play_signal() {
    let (ts, knowledge, team, sd) = pov_with_signal(5, play_signal(5), true);
    let pov = LightweightPlayerPOV::new(0, &knowledge, &team, &ts, &sd);
    assert!(ConventionTech::BlindPlay.game_actions(&pov).is_empty());
}

#[test]
fn no_action_for_untouched_card_without_play_signal() {
    let sd = five_players();
    let mut ts = TableState::new(&sd);
    draw(&mut ts, &sd, 5);
    ts.active_player_index = 0;
    let mut knowledge = PlayerKnowledge::new(0);
    knowledge.own_hand = 1 << 5u64;
    knowledge.inferred_identities[5] = Some(CardIdentityMask::from_bits(R2_MASK));
    let mut team = TeamKnowledge::new(5);
    team.player_mut(0).own_hand = 1 << 5u64;
    let pov = LightweightPlayerPOV::new(0, &knowledge, &team, &ts, &sd);
    assert!(ConventionTech::BlindPlay.game_actions(&pov).is_empty());
}

#[test]
fn matches_play_true_for_untouched_card_with_play_signal() {
    let (ts, knowledge, team, sd) = pov_with_signal(5, play_signal(5), false);
    let pov = LightweightPlayerPOV::new(0, &knowledge, &team, &ts, &sd);
    assert!(ConventionTech::BlindPlay.matches_action(&GameAction::Play { player_index: 0, card_deck_index: 5, turn: 0 }, &[], &pov));
}

#[test]
fn matches_play_false_for_touched_card_with_play_signal() {
    let (ts, knowledge, team, sd) = pov_with_signal(5, play_signal(5), true);
    let pov = LightweightPlayerPOV::new(0, &knowledge, &team, &ts, &sd);
    assert!(!ConventionTech::BlindPlay.matches_action(&GameAction::Play { player_index: 0, card_deck_index: 5, turn: 0 }, &[], &pov));
}

#[test]
fn matches_play_false_for_untouched_card_without_play_signal() {
    let sd = five_players();
    let mut ts = TableState::new(&sd);
    draw(&mut ts, &sd, 5);
    ts.active_player_index = 0;
    let mut knowledge = PlayerKnowledge::new(0);
    knowledge.own_hand = 1 << 5u64;
    let mut team = TeamKnowledge::new(5);
    team.player_mut(0).own_hand = 1 << 5u64;
    let pov = LightweightPlayerPOV::new(0, &knowledge, &team, &ts, &sd);
    assert!(!ConventionTech::BlindPlay.matches_action(&GameAction::Play { player_index: 0, card_deck_index: 5, turn: 0 }, &[], &pov));
}

#[test]
fn knowledge_updates_returns_empty() {
    let (ts, knowledge, team, sd) = pov_with_signal(5, play_signal(5), false);
    let pov = LightweightPlayerPOV::new(0, &knowledge, &team, &ts, &sd);
    let updates = ConventionTech::BlindPlay.knowledge_updates(&GameAction::Play { player_index: 0, card_deck_index: 5, turn: 0 }, &[], &pov);
    assert!(updates.is_empty());
}
