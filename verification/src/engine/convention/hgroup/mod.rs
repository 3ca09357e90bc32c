//! The H-Group convention framework.
pub mod signal;
pub mod game_action_filter;
pub mod h_group_convention_set;
pub mod h_group_core;
pub mod h_group_tech;
pub mod tech;
