use eel::engine::convention::convention_tech::ConventionTech;
use eel::engine::convention::hgroup::signal::Signal;
use eel::engine::knowledge::lightweight_player_pov::LightweightPlayerPOV;
use eel::engine::knowledge::player_knowledge::PlayerKnowledge;
use eel::engine::knowledge::team_knowledge::TeamKnowledge;
use eel::game::action::GameAction;
use eel::game::card::CardIdentityMask;
use eel::game::static_game_data::StaticGameData;
use eel::game::table_state::TableState;
use eel::game::variant::Variant;

const R1_MASK: u64 = 1;

fn five_players() -> StaticGameData {
    StaticGameData { number_of_players: 5, variant: Variant::no_variant() }
}

fn draw(ts: &mut TableState, sd: &StaticGameData, idx: u8) {
    ts.update_with_draw_action(sd, idx);
}


#[test]
fn no_actions_when_hand_is_empty() {
    let sd = five_players();
    let ts = TableState::new(&sd);
    let knowledge = PlayerKnowledge::new(0);
    let team = TeamKnowledge::new(5);
    let pov = LightweightPlayerPOV::new(0, &knowledge, &team, &ts, &sd);
    assert!(ConventionTech::PlayKnownPlayable.game_actions(&pov).is_empty());
}

#[test]
fn plays_empathy_playable_card() {
    let sd = five_players();
    let mut ts = TableState::new(&sd);
    ts.current_turn = 2;
    draw(&mut ts, &sd, 10);
    ts.active_player_index = 0;
    let mut knowledge = PlayerKnowledge::new(0);
    knowledge.own_hand = 1 << 10;
    knowledge.inferred_identities[10] = Some(CardIdentityMask::from_bits(R1_MASK));
    let mut team = TeamKnowledge::new(5);
    team.player_mut(0).own_hand = 1 << 10;
    team.player_mut(0).inferred_identities[10] = Some(CardIdentityMask::from_bits(R1_MASK));
    let pov = LightweightPlayerPOV::new(0, &knowledge, &team, &ts, &sd);
    assert_eq!(
        ConventionTech::PlayKnownPlayable.game_actions(&pov),
        vec![GameAction::Play { player_index: 0, card_deck_index: 10, turn: 2 }]
    );
}

#[test]
fn no_action_for_empathy_playable_card_with_play_signal() {
    let sd = five_players();
    let mut ts = TableState::new(&sd);
    draw(&mut ts, &sd, 10);
    ts.active_player_index = 0;
    let signal = Signal::Play { card_deck_index: 10, committed_identity: 0 };
    let mut knowledge = PlayerKnowledge::new(0);
    knowledge.own_hand = 1 << 10;
    knowledge.inferred_identities[10] = Some(CardIdentityMask::from_bits(R1_MASK));
    knowledge.signals[10].push(signal);
    let mut team = TeamKnowledge::new(5);
    team.player_mut(0).own_hand = 1 << 10;
    team.player_mut(0).inferred_identities[10] = Some(CardIdentityMask::from_bits(R1_MASK));
    team.player_mut(0).signals[10].push(signal);
    let pov = LightweightPlayerPOV::new(0, &knowledge, &team, &ts, &sd);
    assert!(ConventionTech::PlayKnownPlayable.game_actions(&pov).is_empty());
}

#[test]
fn matches_play_false_for_empathy_playable_card_with_play_signal() {
    let sd = five_players();
    let mut ts = TableState::new(&sd);
    draw(&mut ts, &sd, 10);
    ts.active_player_index = 0;
    let signal = Signal::Play { card_deck_index: 10, committed_identity: 0 };
    let mut team = TeamKnowledge::new(5);
    team.player_mut(0).own_hand = 1 << 10;
    team.player_mut(0).inferred_identities[10] = Some(CardIdentityMask::from_bits(R1_MASK));
    team.player_mut(0).signals[10].push(signal);
    let knowledge = PlayerKnowledge::new(0);
    let pov = LightweightPlayerPOV::new(0, &knowledge, &team, &ts, &sd);
    assert!(!ConventionTech::PlayKnownPlayable.matches_action(&GameAction::Play { player_index: 0, card_deck_index: 10, turn: 2 }, &[], &pov));
}
