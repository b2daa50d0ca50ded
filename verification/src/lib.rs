//! A terminal statusline for coding-agent sessions: the verified library.
//!
//! The renderer, the git status parser, the transcript inventory scan and
//! the settings resolution live here with their contracts; reading files,
//! spawning `git` and printing stay with the caller.

pub mod text;
pub mod json;
pub mod git;
pub mod settings;
pub mod config;
pub mod cache;
pub mod inventory;
pub mod payload;
pub mod sessions;
pub mod timefmt;
pub mod render;
