//! The techniques of a convention framework, dispatched by kind.
use vstd::prelude::*;
use crate::engine::convention::hgroup::game_action_filter::{retain_filtered, retain_passing, GameActionFilter};
use crate::engine::convention::hgroup::h_group_tech::{BURN_CLUE, FINESSE, PROMPT, SAVE, SIMPLE_PLAY_CLUE};
use crate::engine::convention::hgroup::tech::blind_play::{blind_plays, BlindPlay};
use crate::engine::convention::hgroup::tech::clue_burn::{burn_clues, burn_matches, ClueBurn};
use crate::engine::convention::hgroup::tech::critical_save::{
    critical_save_clues, critical_save_matches, critical_save_updates, ColorCriticalSave, RankCriticalSave,
};
use crate::engine::convention::hgroup::tech::delayed_play_clue::{
    delayed_clue_setup, delayed_matches, delayed_multi, delayed_updates, hyps_views, DelayedPlayClue,
};
use crate::engine::convention::hgroup::tech::direct_play_clue::{
    direct_play_matches, direct_play_setup, direct_play_updates, DirectPlayClue,
};
use crate::engine::convention::hgroup::tech::discard_chop::{chop_discards, DiscardChop};
use crate::engine::convention::hgroup::tech::discard_known_trash::{trash_discards, DiscardKnownTrash};
use crate::engine::convention::hgroup::tech::five_save::{five_save_clues, five_save_matches, FiveSave};
use crate::engine::convention::hgroup::tech::five_stall::{five_stall_actions, five_stall_matches, FiveStall};
use crate::engine::convention::hgroup::tech::low_level_stall::{low_level_stall_actions, LowLevelStall};
use crate::engine::convention::hgroup::tech::play_known_playable::{known_playable_card, known_playable_plays, PlayKnownPlayable};
use crate::engine::convention::hgroup::tech::simple_finesse::{finesse_clue_setup, finesse_matches, finesse_updates, SimpleFinesse};
use crate::engine::convention::hgroup::tech::simple_prompt::{prompt_matches, prompt_setup, prompt_updates, SimplePrompt};
use crate::engine::convention::hgroup::tech::tempo_clue::{tempo_clue_matches, tempo_clue_setup, tempo_clue_updates, TempoClue};
use crate::engine::convention::hgroup::tech::two_save::{two_save_clues, two_save_matches, two_save_updates, TwoSave};
use crate::engine::convention::hgroup::tech::{candidate_clues, clue_args_wf, select_clues};
use crate::engine::convention::hgroup::h_group_core::chop;
use crate::engine::convention::hgroup::tech::discard_known_trash::first_trash;
use crate::engine::game_state_snapshot::{history_wf, GameStateSnapshot};
use crate::engine::knowledge::knowledge_update::{hyp_empty, updates_wf, Hypothesis, HypothesisView};
use crate::engine::knowledge::lightweight_player_pov::LightweightPlayerPOV;
use crate::engine::knowledge::player_knowledge::has_play_in;
use crate::game::action::{GameAction, GameActionView};
use crate::game::clue::ClueType;
use crate::game::static_game_data::StaticGameData;
use crate::game::MAX_CARDS_IN_DECK;

verus! {

/// A technique players agree on before the game and apply deterministically during it.
#[derive(Clone, Copy, Debug, PartialEq, Eq, Structural)]
pub enum ConventionTech {
    PlayKnownPlayable,
    BlindPlay,
    DirectPlayClue,
    DelayedPlayClue,
    SimplePrompt,
    SimpleFinesse,
    ColorCriticalSave,
    RankCriticalSave,
    FiveSave,
    TwoSave,
    DiscardKnownTrash,
    DiscardChop,
    FiveStall,
    TempoClue,
    ClueBurn,
    LowLevelStall,
}

/// The arguments of an observed action fit the game.
pub open spec fn action_args_wf(a: GameActionView, sd: &StaticGameData) -> bool {
    match a {
        GameActionView::Play { player_index, card_deck_index, .. } => player_index < sd.number_of_players && card_deck_index
            < MAX_CARDS_IN_DECK,
        GameActionView::Discard { player_index, card_deck_index, .. } => player_index < sd.number_of_players
            && card_deck_index < MAX_CARDS_IN_DECK,
        GameActionView::Clue { player_index, touched, .. } => clue_args_wf(player_index, touched, sd),
        GameActionView::Draw { .. } => true,
    }
}

/// A clue's turn has a recorded snapshot.
pub open spec fn action_recorded(a: GameActionView, history_len: int) -> bool {
    match a {
        GameActionView::Clue { turn, .. } => turn < history_len,
        _ => true,
    }
}

/// The Minimum Clue Value Principle filter list of H-Group clue techs.
pub open spec fn mcvp_filters() -> Seq<GameActionFilter> {
    seq![GameActionFilter { rule: crate::engine::convention::hgroup::game_action_filter::FilterRule::MinimumClueValue }]
}

impl ConventionTech {
    pub open spec fn name_spec(self) -> &'static str {
        match self {
            ConventionTech::PlayKnownPlayable => "PlayKnownPlayable",
            ConventionTech::BlindPlay => "BlindPlay",
            ConventionTech::DirectPlayClue => "DirectPlayClue",
            ConventionTech::DelayedPlayClue => "DelayedPlayClue",
            ConventionTech::SimplePrompt => "SimplePrompt",
            ConventionTech::SimpleFinesse => "SimpleFinesse",
            ConventionTech::ColorCriticalSave => "ColorCriticalSave",
            ConventionTech::RankCriticalSave => "RankCriticalSave",
            ConventionTech::FiveSave => "FiveSave",
            ConventionTech::TwoSave => "TwoSave",
            ConventionTech::DiscardKnownTrash => "DiscardKnownTrash",
            ConventionTech::DiscardChop => "DiscardChop",
            ConventionTech::FiveStall => "FiveStall",
            ConventionTech::TempoClue => "TempoClue",
            ConventionTech::ClueBurn => "ClueBurn",
            ConventionTech::LowLevelStall => "LowLevelStall",
        }
    }

    /// Interpretation priority; a lower value is consulted first.
    pub open spec fn priority(self) -> u8 {
        match self {
            ConventionTech::PlayKnownPlayable | ConventionTech::BlindPlay | ConventionTech::DiscardKnownTrash
            | ConventionTech::DiscardChop => 0,
            ConventionTech::ColorCriticalSave | ConventionTech::RankCriticalSave | ConventionTech::FiveSave
            | ConventionTech::TwoSave => SAVE,
            ConventionTech::DirectPlayClue | ConventionTech::DelayedPlayClue | ConventionTech::TempoClue => SIMPLE_PLAY_CLUE,
            ConventionTech::SimplePrompt => PROMPT,
            ConventionTech::SimpleFinesse => FINESSE,
            ConventionTech::ClueBurn => BURN_CLUE,
            ConventionTech::FiveStall | ConventionTech::LowLevelStall => u8::MAX,
        }
    }

    /// The actions this tech proposes to the player on turn of `pov`; H-Group clue techs
    /// other than the burn keep only the clues that respect the Minimum Clue Value Principle.
    pub open spec fn actions(self, pov: LightweightPlayerPOV) -> Seq<GameActionView> {
        let n = pov.sd().number_of_players as int;
        match self {
            ConventionTech::PlayKnownPlayable => known_playable_plays(pov, MAX_CARDS_IN_DECK as int),
            ConventionTech::BlindPlay => blind_plays(pov, MAX_CARDS_IN_DECK as int),
            ConventionTech::DirectPlayClue => retain_passing(
                select_clues(candidate_clues(pov, n), |t: usize, f: u8| direct_play_setup(pov, f)),
                mcvp_filters(),
                pov,
            ),
            ConventionTech::DelayedPlayClue => retain_passing(
                select_clues(candidate_clues(pov, n), |t: usize, f: u8| delayed_clue_setup(pov, f)),
                mcvp_filters(),
                pov,
            ),
            ConventionTech::SimplePrompt => retain_passing(
                select_clues(candidate_clues(pov, n), |t: usize, f: u8| prompt_setup(pov, f)),
                mcvp_filters(),
                pov,
            ),
            ConventionTech::SimpleFinesse => retain_passing(
                select_clues(candidate_clues(pov, n), |t: usize, f: u8| finesse_clue_setup(pov, t, f)),
                mcvp_filters(),
                pov,
            ),
            ConventionTech::TempoClue => retain_passing(
                select_clues(candidate_clues(pov, n), |t: usize, f: u8| tempo_clue_setup(pov, f)),
                mcvp_filters(),
                pov,
            ),
            ConventionTech::ColorCriticalSave => retain_passing(critical_save_clues(pov, ClueType::Color, n), mcvp_filters(), pov),
            ConventionTech::RankCriticalSave => retain_passing(critical_save_clues(pov, ClueType::Rank, n), mcvp_filters(), pov),
            ConventionTech::FiveSave => retain_passing(five_save_clues(pov, n), mcvp_filters(), pov),
            ConventionTech::TwoSave => retain_passing(two_save_clues(pov, n), mcvp_filters(), pov),
            ConventionTech::DiscardKnownTrash => trash_discards(pov),
            ConventionTech::DiscardChop => chop_discards(pov),
            ConventionTech::FiveStall => five_stall_actions(pov),
            ConventionTech::ClueBurn => burn_clues(pov, n),
            ConventionTech::LowLevelStall => low_level_stall_actions(pov),
        }
    }

    /// This tech explains the observed action `a`, from `obs`.
    pub open spec fn explains(self, a: GameActionView, history: Seq<GameStateSnapshot>, obs: LightweightPlayerPOV) -> bool {
        match a {
            GameActionView::Clue { player_index, touched, clue, turn } => match self {
                ConventionTech::DirectPlayClue => direct_play_matches(player_index, touched, clue, turn, history, obs),
                ConventionTech::DelayedPlayClue => delayed_matches(player_index, touched, clue, turn, history, obs),
                ConventionTech::SimplePrompt => prompt_matches(player_index, touched, turn, history, obs),
                ConventionTech::SimpleFinesse => finesse_matches(player_index, touched, clue, turn, history, obs),
                ConventionTech::TempoClue => tempo_clue_matches(player_index, touched, clue, turn, history, obs),
                ConventionTech::ColorCriticalSave => critical_save_matches(ClueType::Color, player_index, touched, clue, turn, history, obs),
                ConventionTech::RankCriticalSave => critical_save_matches(ClueType::Rank, player_index, touched, clue, turn, history, obs),
                ConventionTech::FiveSave => five_save_matches(player_index, clue, turn, history, obs),
                ConventionTech::TwoSave => two_save_matches(player_index, clue, turn, history, obs),
                ConventionTech::ClueBurn => burn_matches(touched, turn, history, obs.sd().number_of_players as int),
                ConventionTech::FiveStall => five_stall_matches(a, history, obs),
                _ => false,
            },
            GameActionView::Play { player_index, card_deck_index, .. } => match self {
                ConventionTech::PlayKnownPlayable => known_playable_card(
                    obs.team().view_of(player_index as int),
                    &obs.ts(),
                    &obs.v(),
                    card_deck_index as int,
                ),
                ConventionTech::BlindPlay => has_play_in(obs.team().view_of(player_index as int).signals[card_deck_index as int])
                    && !obs.ts().touched(card_deck_index as int),
                _ => false,
            },
            GameActionView::Discard { player_index, card_deck_index, .. } => match self {
                ConventionTech::DiscardKnownTrash => obs.trash(card_deck_index as int),
                ConventionTech::DiscardChop => chop(obs, player_index as int) == Some(card_deck_index),
                _ => false,
            },
            GameActionView::Draw { .. } => false,
        }
    }

    /// This tech's interpretation of the observed action `a`, from `obs`.
    pub open spec fn interpretation(self, a: GameActionView, history: Seq<GameStateSnapshot>, obs: LightweightPlayerPOV) -> HypothesisView {
        match a {
            GameActionView::Clue { player_index, touched, clue, turn } => match self {
                ConventionTech::DirectPlayClue => direct_play_updates(player_index, touched, clue, turn, history, obs),
                ConventionTech::DelayedPlayClue => delayed_updates(player_index, touched, clue, turn, history, obs),
                ConventionTech::SimplePrompt => prompt_updates(player_index, touched, clue, turn, history, obs),
                ConventionTech::SimpleFinesse => finesse_updates(player_index, touched, clue, turn, history, obs),
                ConventionTech::TempoClue => tempo_clue_updates(player_index, touched, clue, turn, history, obs),
                ConventionTech::ColorCriticalSave | ConventionTech::RankCriticalSave => critical_save_updates(
                    player_index,
                    touched,
                    clue,
                    turn,
                    history,
                    obs,
                ),
                ConventionTech::TwoSave => two_save_updates(player_index, touched, turn, history, obs),
                _ => hyp_empty(),
            },
            _ => hyp_empty(),
        }
    }

    /// The hypotheses this tech contributes for `a`: the delayed play clue may contribute
    /// several; every other tech contributes its single interpretation.
    pub open spec fn interpretations(self, a: GameActionView, history: Seq<GameStateSnapshot>, obs: LightweightPlayerPOV) -> Seq<HypothesisView> {
        match (self, a) {
            (ConventionTech::DelayedPlayClue, GameActionView::Clue { player_index, touched, clue, turn }) => delayed_multi(
                player_index,
                touched,
                clue,
                turn,
                history,
                obs,
            ),
            _ => seq![self.interpretation(a, history, obs)],
        }
    }

    pub fn name(&self) -> (r: &'static str)
        ensures
            r == self.name_spec(),
    {
        match self {
            ConventionTech::PlayKnownPlayable => "PlayKnownPlayable",
            ConventionTech::BlindPlay => "BlindPlay",
            ConventionTech::DirectPlayClue => "DirectPlayClue",
            ConventionTech::DelayedPlayClue => "DelayedPlayClue",
            ConventionTech::SimplePrompt => "SimplePrompt",
            ConventionTech::SimpleFinesse => "SimpleFinesse",
            ConventionTech::ColorCriticalSave => "ColorCriticalSave",
            ConventionTech::RankCriticalSave => "RankCriticalSave",
            ConventionTech::FiveSave => "FiveSave",
            ConventionTech::TwoSave => "TwoSave",
            ConventionTech::DiscardKnownTrash => "DiscardKnownTrash",
            ConventionTech::DiscardChop => "DiscardChop",
            ConventionTech::FiveStall => "FiveStall",
            ConventionTech::TempoClue => "TempoClue",
            ConventionTech::ClueBurn => "ClueBurn",
            ConventionTech::LowLevelStall => "LowLevelStall",
        }
    }

    pub fn interpretation_priority(&self) -> (r: u8)
        ensures
            r == self.priority(),
    {
        match self {
            ConventionTech::PlayKnownPlayable | ConventionTech::BlindPlay | ConventionTech::DiscardKnownTrash
            | ConventionTech::DiscardChop => 0,
            ConventionTech::ColorCriticalSave | ConventionTech::RankCriticalSave | ConventionTech::FiveSave
            | ConventionTech::TwoSave => SAVE,
            ConventionTech::DirectPlayClue | ConventionTech::DelayedPlayClue | ConventionTech::TempoClue => SIMPLE_PLAY_CLUE,
            ConventionTech::SimplePrompt => PROMPT,
            ConventionTech::SimpleFinesse => FINESSE,
            ConventionTech::ClueBurn => BURN_CLUE,
            ConventionTech::FiveStall => FiveStall.interpretation_priority(),
            ConventionTech::LowLevelStall => LowLevelStall.interpretation_priority(),
        }
    }

    /// The actions this tech proposes to the player on turn of `pov`.
    pub fn game_actions(&self, pov: &LightweightPlayerPOV) -> (r: Vec<GameAction>)
        requires
            pov.wf(),
        ensures
            r@.map_values(|a: GameAction| a@) == self.actions(*pov),
    {
        let filters = vec![GameActionFilter::minimum_clue_value()];
        assert(filters@ =~= mcvp_filters());
        match self {
            ConventionTech::PlayKnownPlayable => PlayKnownPlayable.play_game_actions(pov),
            ConventionTech::BlindPlay => BlindPlay.play_game_actions(pov),
            ConventionTech::DirectPlayClue => retain_filtered(DirectPlayClue.clue_game_actions(pov), &filters, pov),
            ConventionTech::DelayedPlayClue => retain_filtered(DelayedPlayClue.clue_game_actions(pov), &filters, pov),
            ConventionTech::SimplePrompt => retain_filtered(SimplePrompt.clue_game_actions(pov), &filters, pov),
            ConventionTech::SimpleFinesse => retain_filtered(SimpleFinesse.clue_game_actions(pov), &filters, pov),
            ConventionTech::TempoClue => retain_filtered(TempoClue.clue_game_actions(pov), &filters, pov),
            ConventionTech::ColorCriticalSave => retain_filtered(ColorCriticalSave.clue_game_actions(pov), &filters, pov),
            ConventionTech::RankCriticalSave => retain_filtered(RankCriticalSave.clue_game_actions(pov), &filters, pov),
            ConventionTech::FiveSave => retain_filtered(FiveSave.clue_game_actions(pov), &filters, pov),
            ConventionTech::TwoSave => retain_filtered(TwoSave.clue_game_actions(pov), &filters, pov),
            ConventionTech::DiscardKnownTrash => DiscardKnownTrash.discard_game_actions(pov),
            ConventionTech::DiscardChop => DiscardChop.discard_game_actions(pov),
            ConventionTech::FiveStall => FiveStall.game_actions(pov),
            ConventionTech::ClueBurn => ClueBurn.clue_game_actions(pov),
            ConventionTech::LowLevelStall => LowLevelStall.game_actions(pov),
        }
    }

    /// Does this tech explain the observed `action`, from `observer_pov`.
    pub fn matches_action(&self, action: &GameAction, history: &[GameStateSnapshot], observer_pov: &LightweightPlayerPOV) -> (r: bool)
        requires
            observer_pov.wf(),
            history_wf(history@, &observer_pov.sd()),
            action_args_wf(action@, &observer_pov.sd()),
        ensures
            r == self.explains(action@, history@, *observer_pov),
    {
        match action {
            GameAction::Clue { player_index, touched_card_deck_indexes, clue, turn } => {
                let touched = touched_card_deck_indexes.as_slice();
                let p = *player_index;
                let t = *turn;
                match self {
                    ConventionTech::DirectPlayClue => DirectPlayClue.matches_clue(p, touched, clue, t, history, observer_pov),
                    ConventionTech::DelayedPlayClue => DelayedPlayClue.matches_clue(p, touched, clue, t, history, observer_pov),
                    ConventionTech::SimplePrompt => SimplePrompt.matches_clue(p, touched, clue, t, history, observer_pov),
                    ConventionTech::SimpleFinesse => SimpleFinesse.matches_clue(p, touched, clue, t, history, observer_pov),
                    ConventionTech::TempoClue => TempoClue.matches_clue(p, touched, clue, t, history, observer_pov),
                    ConventionTech::ColorCriticalSave => ColorCriticalSave.matches_clue(p, touched, clue, t, history, observer_pov),
                    ConventionTech::RankCriticalSave => RankCriticalSave.matches_clue(p, touched, clue, t, history, observer_pov),
                    ConventionTech::FiveSave => FiveSave.matches_clue(p, touched, clue, t, history, observer_pov),
                    ConventionTech::TwoSave => TwoSave.matches_clue(p, touched, clue, t, history, observer_pov),
                    ConventionTech::ClueBurn => ClueBurn.matches_clue(p, touched, clue, t, history, observer_pov),
                    ConventionTech::FiveStall => FiveStall.matches_action(action, history, observer_pov),
                    _ => false,
                }
            },
            GameAction::Play { player_index, card_deck_index, turn } => match self {
                ConventionTech::PlayKnownPlayable => PlayKnownPlayable.matches_play(*player_index, *card_deck_index, *turn, history, observer_pov),
                ConventionTech::BlindPlay => BlindPlay.matches_play(*player_index, *card_deck_index, *turn, history, observer_pov),
                _ => false,
            },
            GameAction::Discard { player_index, card_deck_index, turn } => match self {
                ConventionTech::DiscardKnownTrash => DiscardKnownTrash.matches_discard(*player_index, *card_deck_index, *turn, history, observer_pov),
                ConventionTech::DiscardChop => DiscardChop.matches_discard(*player_index, *card_deck_index, *turn, history, observer_pov),
                _ => false,
            },
            GameAction::Draw { .. } => false,
        }
    }

    /// This tech's hypothesis for the observed `action`, from `observer_pov`.
    pub fn knowledge_updates(&self, action: &GameAction, history: &[GameStateSnapshot], observer_pov: &LightweightPlayerPOV) -> (r: Hypothesis)
        requires
            observer_pov.wf(),
            history_wf(history@, &observer_pov.sd()),
            action_args_wf(action@, &observer_pov.sd()),
            action_recorded(action@, history@.len() as int),
        ensures
            r@ == self.interpretation(action@, history@, *observer_pov),
            updates_wf(r@.immediate),
    {
        match action {
            GameAction::Clue { player_index, touched_card_deck_indexes, clue, turn } => {
                let touched = touched_card_deck_indexes.as_slice();
                let p = *player_index;
                let t = *turn;
                match self {
                    ConventionTech::DirectPlayClue => DirectPlayClue.clue_knowledge_updates(p, touched, clue, t, history, observer_pov),
                    ConventionTech::DelayedPlayClue => DelayedPlayClue.clue_knowledge_updates(p, touched, clue, t, history, observer_pov),
                    ConventionTech::SimplePrompt => SimplePrompt.clue_knowledge_updates(p, touched, clue, t, history, observer_pov),
                    ConventionTech::SimpleFinesse => SimpleFinesse.clue_knowledge_updates(p, touched, clue, t, history, observer_pov),
                    ConventionTech::TempoClue => TempoClue.clue_knowledge_updates(p, touched, clue, t, history, observer_pov),
                    ConventionTech::ColorCriticalSave => ColorCriticalSave.clue_knowledge_updates(p, touched, clue, t, history, observer_pov),
                    ConventionTech::RankCriticalSave => RankCriticalSave.clue_knowledge_updates(p, touched, clue, t, history, observer_pov),
                    ConventionTech::TwoSave => TwoSave.clue_knowledge_updates(p, touched, clue, t, history, observer_pov),
                    _ => Hypothesis::empty(),
                }
            },
            _ => Hypothesis::empty(),
        }
    }

    /// Every hypothesis this tech contributes for the observed `action`.
    pub fn knowledge_updates_multi(&self, action: &GameAction, history: &[GameStateSnapshot], observer_pov: &LightweightPlayerPOV) -> (r: Vec<Hypothesis>)
        requires
            observer_pov.wf(),
            history_wf(history@, &observer_pov.sd()),
            action_args_wf(action@, &observer_pov.sd()),
            action_recorded(action@, history@.len() as int),
        ensures
            hyps_views(r@) == self.interpretations(action@, history@, *observer_pov),
            forall|k: int| 0 <= k < r@.len() ==> updates_wf((#[trigger] r@[k])@.immediate),
    {
        match (self, action) {
            (ConventionTech::DelayedPlayClue, GameAction::Clue { player_index, touched_card_deck_indexes, clue, turn }) => {
                DelayedPlayClue.clue_knowledge_updates_multi(
                    *player_index,
                    touched_card_deck_indexes.as_slice(),
                    clue,
                    *turn,
                    history,
                    observer_pov,
                )
            },
            _ => {
                let h = self.knowledge_updates(action, history, observer_pov);
                let r = vec![h];
                assert(hyps_views(r@) =~= seq![self.interpretation(action@, history@, *observer_pov)]);
                r
            },
        }
    }
}

} // verus!
