//! PugDock core: the decisions, parsers and formatters behind the desktop
//! workspace app, each with a contract proved by Verus.

pub mod error;
pub mod git_sync;
pub mod integrations;
pub mod json;
pub mod search;
pub mod secrets;
pub mod text;
pub mod theme;
pub mod tree;
pub mod update;
pub mod workspace;
