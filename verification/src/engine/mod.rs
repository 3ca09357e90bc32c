//! The engine: per-player knowledge, convention techniques and their dispatch.
pub mod action_outcome;
pub mod action_selection_strategy;
pub mod convention;
pub mod dummy_action_selection_strategy;
pub mod evaluator;
pub mod final_round;
pub mod game_state_snapshot;
pub mod greedy_action_selection_strategy;
pub mod knowledge;
pub mod knowledge_aware_game_state;
pub mod play_resolver;
pub mod self_play;
