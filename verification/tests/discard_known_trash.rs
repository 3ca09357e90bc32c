use eel::engine::convention::convention_tech::ConventionTech;
use eel::engine::knowledge::lightweight_player_pov::LightweightPlayerPOV;
use eel::engine::knowledge::player_knowledge::PlayerKnowledge;
use eel::engine::knowledge::team_knowledge::TeamKnowledge;
use eel::game::action::GameAction;
use eel::game::card::CardIdentityMask;
use eel::game::static_game_data::StaticGameData;
use eel::game::table_state::TableState;
use eel::game::variant::Variant;

const R1_MASK: u64 = 1;

fn five_players() -> StaticGameData {
    StaticGameData { number_of_players: 5, variant: Variant::no_variant() }
}

fn draw(ts: &mut TableState, sd: &StaticGameData, idx: u8) {
    ts.update_with_draw_action(sd, idx);
}


fn make_knowledge(hand_cards: &[u8], trash_empathy: &[(u8, u64)]) -> PlayerKnowledge {
    let mut k = PlayerKnowledge::new(0);
    for &idx in hand_cards {
        k.own_hand |= 1u64 << idx;
    }
    for &(idx, mask) in trash_empathy {
        k.inferred_identities[idx as usize] = Some(CardIdentityMask::from_bits(mask));
    }
    k
}

fn play_r1(ts: &mut TableState, sd: &StaticGameData) {
    draw(ts, sd, 0);
    ts.update_with_play_action_of_specific_card(sd, 0, 0);
}

#[test]
fn returns_no_action_when_no_known_trash_in_hand() {
    let sd = five_players();
    let mut ts = TableState::new(&sd);
    ts.current_turn = 2;
    for &idx in &[10u8, 20, 30] {
        draw(&mut ts, &sd, idx);
    }
    let knowledge = make_knowledge(&[10, 20, 30], &[]);
    let team = TeamKnowledge::new(5);
    let pov = LightweightPlayerPOV::new(0, &knowledge, &team, &ts, &sd);
    assert!(ConventionTech::DiscardKnownTrash.game_actions(&pov).is_empty());
}

#[test]
fn discards_known_trash_card_when_present() {
    let sd = five_players();
    let mut ts = TableState::new(&sd);
    play_r1(&mut ts, &sd);
    ts.clue_tokens = 7;
    ts.current_turn = 3;
    for &idx in &[10u8, 20] {
        draw(&mut ts, &sd, idx);
    }
    let knowledge = make_knowledge(&[10, 20], &[(10, R1_MASK)]);
    let team = TeamKnowledge::new(5);
    let pov = LightweightPlayerPOV::new(0, &knowledge, &team, &ts, &sd);
    assert_eq!(
        ConventionTech::DiscardKnownTrash.game_actions(&pov),
        vec![GameAction::Discard { player_index: 0, card_deck_index: 10, turn: 3 }]
    );
}

#[test]
fn picks_leftmost_when_multiple_known_trash_cards() {
    let sd = five_players();
    let mut ts = TableState::new(&sd);
    play_r1(&mut ts, &sd);
    ts.clue_tokens = 7;
    ts.current_turn = 4;
    for &idx in &[10u8, 20, 30] {
        draw(&mut ts, &sd, idx);
    }
    let knowledge = make_knowledge(&[10, 20, 30], &[(10, R1_MASK), (20, R1_MASK)]);
    let team = TeamKnowledge::new(5);
    let pov = LightweightPlayerPOV::new(0, &knowledge, &team, &ts, &sd);
    assert_eq!(
        ConventionTech::DiscardKnownTrash.game_actions(&pov),
        vec![GameAction::Discard { player_index: 0, card_deck_index: 20, turn: 4 }]
    );
}

#[test]
fn picks_leftmost_when_all_cards_are_known_trash() {
    let sd = five_players();
    let mut ts = TableState::new(&sd);
    play_r1(&mut ts, &sd);
    ts.clue_tokens = 7;
    ts.current_turn = 5;
    for &idx in &[10u8, 20] {
        draw(&mut ts, &sd, idx);
    }
    let knowledge = make_knowledge(&[10, 20], &[(10, R1_MASK), (20, R1_MASK)]);
    let team = TeamKnowledge::new(5);
    let pov = LightweightPlayerPOV::new(0, &knowledge, &team, &ts, &sd);
    assert_eq!(
        ConventionTech::DiscardKnownTrash.game_actions(&pov),
        vec![GameAction::Discard { player_index: 0, card_deck_index: 20, turn: 5 }]
    );
}

#[test]
fn returns_no_action_when_clue_tokens_at_max() {
    let sd = five_players();
    let mut ts = TableState::new(&sd);
    play_r1(&mut ts, &sd);
    ts.current_turn = 3;
    for &idx in &[10u8, 20] {
        draw(&mut ts, &sd, idx);
    }
    let knowledge = make_knowledge(&[10, 20], &[(10, R1_MASK)]);
    let team = TeamKnowledge::new(5);
    let pov = LightweightPlayerPOV::new(0, &knowledge, &team, &ts, &sd);
    assert!(ConventionTech::DiscardKnownTrash.game_actions(&pov).is_empty());
}

#[test]
fn matches_action_returns_true_for_known_trash_discard() {
    let sd = five_players();
    let mut ts = TableState::new(&sd);
    play_r1(&mut ts, &sd);
    for &idx in &[10u8, 20] {
        draw(&mut ts, &sd, idx);
    }
    let knowledge = make_knowledge(&[10, 20], &[(10, R1_MASK)]);
    let team = TeamKnowledge::new(5);
    let pov = LightweightPlayerPOV::new(0, &knowledge, &team, &ts, &sd);
    let action = GameAction::Discard { player_index: 0, card_deck_index: 10, turn: 6 };
    assert!(ConventionTech::DiscardKnownTrash.matches_action(&action, &[], &pov));
}

#[test]
fn matches_action_returns_false_for_non_trash_discard() {
    let sd = five_players();
    let mut ts = TableState::new(&sd);
    play_r1(&mut ts, &sd);
    for &idx in &[10u8, 20] {
        draw(&mut ts, &sd, idx);
    }
    let knowledge = make_knowledge(&[10, 20], &[(10, R1_MASK)]);
    let team = TeamKnowledge::new(5);
    let pov = LightweightPlayerPOV::new(0, &knowledge, &team, &ts, &sd);
    let action = GameAction::Discard { player_index: 0, card_deck_index: 20, turn: 6 };
    assert!(!ConventionTech::DiscardKnownTrash.matches_action(&action, &[], &pov));
}
