//! What each player knows or infers about the cards.
pub mod knowledge_update;
pub mod player_knowledge;
pub mod team_knowledge;
pub mod lightweight_player_pov;
pub mod player_knowledge_state;
pub mod player_pov_snapshot;
