#![allow(dead_code)]
use eel::engine::convention::hgroup::signal::Signal;
use eel::engine::knowledge::lightweight_player_pov::LightweightPlayerPOV;
use eel::engine::knowledge::player_knowledge::knowledge_with_empathy;
use eel::engine::knowledge::team_knowledge::TeamKnowledge;
use eel::game::static_game_data::StaticGameData;
use eel::game::table_state::TableState;
use eel::game::variant::Variant;

const R1: u8 = 0;
const R2: u8 = 1;
const R3: u8 = 2;
const Y1: u8 = 5;
const Y2: u8 = 6;
const G1: u8 = 10;
const G2: u8 = 11;
const B1: u8 = 15;
const B2: u8 = 16;
const P1: u8 = 20;
const P2: u8 = 21;
const P3: u8 = 22;
const R1_MASK: u64 = 1 << R1;
const R2_MASK: u64 = 1 << R2;
const R3_MASK: u64 = 1 << R3;
const Y1_MASK: u64 = 1 << Y1;
const Y2_MASK: u64 = 1 << Y2;
const G1_MASK: u64 = 1 << G1;
const G2_MASK: u64 = 1 << G2;
const B1_MASK: u64 = 1 << B1;
const B2_MASK: u64 = 1 << B2;
const P1_MASK: u64 = 1 << P1;
const P2_MASK: u64 = 1 << P2;
const P3_MASK: u64 = 1 << P3;
const R4: u8 = 3;
const R5: u8 = 4;
const R4_MASK: u64 = 1 << R4;
const R5_MASK: u64 = 1 << R5;
const Y5: u8 = 9;
const Y5_MASK: u64 = 1 << Y5;


fn five_players() -> StaticGameData {
    StaticGameData { number_of_players: 5, variant: Variant::no_variant() }
}

fn draw(ts: &mut TableState, sd: &StaticGameData, idx: u8) {
    ts.update_with_draw_action(sd, idx);
}


const Y3: u8 = 7;
const Y3_MASK: u64 = 1 << Y3;
const B3: u8 = 17;
const B3_MASK: u64 = 1 << B3;

fn played(sd: &StaticGameData, plays: &[u8]) -> TableState {
    let mut ts = TableState::new(sd);
    for i in 0..plays.len() {
        draw(&mut ts, sd, i as u8);
    }
    for (i, &id) in plays.iter().enumerate() {
        ts.update_with_play_action_of_specific_card(sd, i as u8, id);
    }
    ts
}

fn discarded(sd: &StaticGameData, draws: u8, discards: &[u8]) -> TableState {
    let mut ts = TableState::new(sd);
    for i in 0..draws {
        draw(&mut ts, sd, i);
    }
    for (i, &id) in discards.iter().enumerate() {
        ts.update_with_discard_action_of_specific_card(sd, i as u8, id);
    }
    ts
}

#[test]
fn lightweight_player_pov_knows_that_a_fully_known_card_is_playable() {
    let sd = five_players();
    let ts = played(&sd, &[R1, R2]);
    let knowledge = knowledge_with_empathy(42, R3_MASK);
    let team = TeamKnowledge::new(5);
    let pov = LightweightPlayerPOV::new(0, &knowledge, &team, &ts, &sd);
    assert!(pov.is_playable(42));
}

#[test]
fn lightweight_player_pov_knows_that_a_fully_known_card_is_not_playable() {
    let sd = five_players();
    let ts = played(&sd, &[R1, R2]);
    let knowledge = knowledge_with_empathy(42, B3_MASK);
    let team = TeamKnowledge::new(5);
    let pov = LightweightPlayerPOV::new(0, &knowledge, &team, &ts, &sd);
    assert!(!pov.is_playable(42));
}

#[test]
fn lightweight_player_pov_knows_a_card_is_playable_because_all_possible_identities_are_playable() {
    let sd = five_players();
    let ts = played(&sd, &[Y1, B1, B2, R2]);
    let knowledge = knowledge_with_empathy(42, R1_MASK | Y2_MASK | G1_MASK | B3_MASK | P1_MASK);
    let team = TeamKnowledge::new(5);
    let pov = LightweightPlayerPOV::new(0, &knowledge, &team, &ts, &sd);
    assert!(pov.is_playable(42));
}

#[test]
fn lightweight_player_pov_a_card_is_not_playable_because_not_all_possible_identities_are_playable() {
    let sd = five_players();
    let ts = played(&sd, &[Y1, B1, B2, R2]);
    let knowledge = knowledge_with_empathy(42, R1_MASK | Y2_MASK | Y3_MASK | G1_MASK | B3_MASK | P1_MASK);
    let team = TeamKnowledge::new(5);
    let pov = LightweightPlayerPOV::new(0, &knowledge, &team, &ts, &sd);
    assert!(!pov.is_playable(42));
}

#[test]
fn knows_card_is_trash_when_copy_already_played() {
    let sd = five_players();
    let ts = played(&sd, &[R1]);
    let knowledge = knowledge_with_empathy(42, R1_MASK);
    let team = TeamKnowledge::new(5);
    let pov = LightweightPlayerPOV::new(0, &knowledge, &team, &ts, &sd);
    assert!(pov.is_known_trash(42));
}

#[test]
fn knows_card_is_trash_when_prerequisite_discarded() {
    let sd = five_players();
    let ts = discarded(&sd, 3, &[R1, R1, R1]);
    let knowledge = knowledge_with_empathy(42, R2_MASK);
    let team = TeamKnowledge::new(5);
    let pov = LightweightPlayerPOV::new(0, &knowledge, &team, &ts, &sd);
    assert!(pov.is_known_trash(42));
}

#[test]
fn card_is_not_trash_when_prerequisite_still_available() {
    let sd = five_players();
    let ts = discarded(&sd, 3, &[R1]);
    let knowledge = knowledge_with_empathy(42, R2_MASK);
    let team = TeamKnowledge::new(5);
    let pov = LightweightPlayerPOV::new(0, &knowledge, &team, &ts, &sd);
    assert!(!pov.is_known_trash(42));
}

#[test]
fn knows_card_is_trash_when_only_some_prerequisites_discarded_but_not_all() {
    let sd = five_players();
    let ts = discarded(&sd, 3, &[R1, R1, R1]);
    let knowledge = knowledge_with_empathy(42, R2_MASK);
    let team = TeamKnowledge::new(5);
    let pov = LightweightPlayerPOV::new(0, &knowledge, &team, &ts, &sd);
    assert!(pov.is_known_trash(42));
}

#[test]
fn card_is_not_trash_when_playable() {
    let sd = five_players();
    let mut ts = TableState::new(&sd);
    draw(&mut ts, &sd, 0);
    draw(&mut ts, &sd, 1);
    let knowledge = knowledge_with_empathy(42, R1_MASK);
    let team = TeamKnowledge::new(5);
    let pov = LightweightPlayerPOV::new(0, &knowledge, &team, &ts, &sd);
    assert!(!pov.is_known_trash(42));
}

#[test]
fn is_known_trash_true_when_all_multi_bit_identities_are_played() {
    let sd = five_players();
    let ts = played(&sd, &[R1, Y1]);
    let knowledge = knowledge_with_empathy(42, R1_MASK | Y1_MASK);
    let team = TeamKnowledge::new(5);
    let pov = LightweightPlayerPOV::new(0, &knowledge, &team, &ts, &sd);
    assert!(pov.is_known_trash(42));
}

#[test]
fn is_not_known_trash_when_one_multi_bit_identity_still_needed() {
    let sd = five_players();
    let ts = played(&sd, &[R1]);
    let knowledge = knowledge_with_empathy(42, R1_MASK | B1_MASK);
    let team = TeamKnowledge::new(5);
    let pov = LightweightPlayerPOV::new(0, &knowledge, &team, &ts, &sd);
    assert!(!pov.is_known_trash(42));
}

#[test]
fn gotten_cards_includes_touched_card_with_known_identity() {
    let sd = five_players();
    let mut ts = TableState::new(&sd);
    draw(&mut ts, &sd, 0);
    ts.clue_touched_cards |= 1 << 0;
    let knowledge = knowledge_with_empathy(0, R1_MASK);
    let mut team = TeamKnowledge::new(5);
    team.player_mut(0).own_hand |= 1 << 0;
    let pov = LightweightPlayerPOV::new(0, &knowledge, &team, &ts, &sd);
    let gotten = pov.gotten_cards();
    assert!(gotten.contains(R1));
}

#[test]
fn gotten_cards_includes_card_with_play_signal() {
    let sd = five_players();
    let mut ts = TableState::new(&sd);
    draw(&mut ts, &sd, 0);
    let mut knowledge = knowledge_with_empathy(0, R1_MASK);
    knowledge.signals[0].push(Signal::Play { card_deck_index: 0, committed_identity: R1 });
    let team = TeamKnowledge::new(5);
    let pov = LightweightPlayerPOV::new(0, &knowledge, &team, &ts, &sd);
    let gotten = pov.gotten_cards();
    assert!(gotten.contains(R1));
}

#[test]
fn gotten_cards_excludes_untouched_card_without_signal() {
    let sd = five_players();
    let mut ts = TableState::new(&sd);
    draw(&mut ts, &sd, 0);
    let knowledge = knowledge_with_empathy(0, R1_MASK);
    let team = TeamKnowledge::new(5);
    let pov = LightweightPlayerPOV::new(0, &knowledge, &team, &ts, &sd);
    let gotten = pov.gotten_cards();
    assert!(!gotten.contains(R1));
}

#[test]
fn gotten_cards_excludes_card_with_unknown_identity() {
    let sd = five_players();
    let mut ts = TableState::new(&sd);
    draw(&mut ts, &sd, 0);
    ts.clue_touched_cards |= 1 << 0;
    let knowledge = knowledge_with_empathy(0, R1_MASK | B1_MASK);
    let mut team = TeamKnowledge::new(5);
    team.player_mut(0).own_hand |= 1 << 0;
    let pov = LightweightPlayerPOV::new(0, &knowledge, &team, &ts, &sd);
    let gotten = pov.gotten_cards();
    assert_eq!(gotten.as_bits(), 0);
}

#[test]
fn gotten_cards_includes_cards_from_other_players() {
    let sd = five_players();
    let mut ts = TableState::new(&sd);
    draw(&mut ts, &sd, 0);
    draw(&mut ts, &sd, 1);
    ts.clue_touched_cards |= 1 << 1;
    let mut knowledge = knowledge_with_empathy(0, R1_MASK);
    knowledge.update_with_revealed_card(1, R2);
    let mut team = TeamKnowledge::new(5);
    team.player_mut(0).own_hand |= 1 << 0;
    team.player_mut(1).own_hand |= 1 << 1;
    let pov = LightweightPlayerPOV::new(0, &knowledge, &team, &ts, &sd);
    let gotten = pov.gotten_cards();
    assert!(gotten.contains(R2));
}

#[test]
fn a_card_is_not_trash_when_one_candidate_is_still_needed() {
    let sd = five_players();
    let ts = discarded(&sd, 3, &[R1, R1, R1]);
    let knowledge = knowledge_with_empathy(42, R2_MASK | B1_MASK);
    let team = TeamKnowledge::new(5);
    let pov = LightweightPlayerPOV::new(0, &knowledge, &team, &ts, &sd);
    assert!(!pov.is_known_trash(42));
}

#[test]
fn a_card_is_trash_when_each_candidate_is_played_or_unreachable() {
    let sd = five_players();
    let mut ts = discarded(&sd, 3, &[R1, R1, R1]);
    draw(&mut ts, &sd, 3);
    ts.update_with_play_action_of_specific_card(&sd, 3, B1);
    let knowledge = knowledge_with_empathy(42, R2_MASK | B1_MASK);
    let team = TeamKnowledge::new(5);
    let pov = LightweightPlayerPOV::new(0, &knowledge, &team, &ts, &sd);
    assert!(pov.is_known_trash(42));
}

#[test]
fn player_pov_view_knows_that_a_fully_known_card_is_playable() {
    let sd = five_players();
    let ts = played(&sd, &[R1, R2]);
    let knowledge = knowledge_with_empathy(42, R3_MASK);
    let team = TeamKnowledge::new(sd.number_of_players as usize);
    let view = LightweightPlayerPOV::new(0, &knowledge, &team, &ts, &sd);
    assert!(view.is_playable(42));
}

#[test]
fn player_pov_view_knows_that_a_fully_known_card_is_not_playable() {
    let sd = five_players();
    let ts = played(&sd, &[R1, R2]);
    let knowledge = knowledge_with_empathy(42, B3_MASK);
    let team = TeamKnowledge::new(sd.number_of_players as usize);
    let view = LightweightPlayerPOV::new(0, &knowledge, &team, &ts, &sd);
    assert!(!view.is_playable(42));
}

#[test]
fn player_pov_view_knows_a_card_is_playable_because_all_possible_identities_are_playable() {
    let sd = five_players();
    let ts = played(&sd, &[Y1, B1, B2, R2]);
    let knowledge = knowledge_with_empathy(42, R1_MASK | Y2_MASK | G1_MASK | B3_MASK | P1_MASK);
    let team = TeamKnowledge::new(sd.number_of_players as usize);
    let view = LightweightPlayerPOV::new(0, &knowledge, &team, &ts, &sd);
    assert!(view.is_playable(42));
}

#[test]
fn player_pov_view_a_card_is_not_playable_because_not_all_possible_identities_are_playable() {
    let sd = five_players();
    let ts = played(&sd, &[Y1, B1, B2, R2]);
    let knowledge = knowledge_with_empathy(42, R1_MASK | Y2_MASK | Y3_MASK | G1_MASK | B3_MASK | P1_MASK);
    let team = TeamKnowledge::new(sd.number_of_players as usize);
    let view = LightweightPlayerPOV::new(0, &knowledge, &team, &ts, &sd);
    assert!(!view.is_playable(42));
}
