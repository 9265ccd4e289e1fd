//! The outside services the app talks to.

pub mod anthropic;
pub mod github;
