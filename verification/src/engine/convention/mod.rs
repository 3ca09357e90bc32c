//! Convention frameworks.
pub mod convention_tech;
pub mod hgroup;
