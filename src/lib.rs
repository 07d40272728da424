//! Browsable access to a mirrored collection of gitignore templates: the
//! template tree built from the mirror, the interactive picker's state
//! machine, and the mirror's staleness and self-healing policy.

pub mod commands;
pub mod config;
pub mod github;
pub mod index;
pub mod matching;
pub mod names;
pub mod once;
pub mod picker;
pub mod progress;
pub mod sync;
pub mod template;
pub mod templates;
mod text;
pub mod tree;
