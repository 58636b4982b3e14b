//! Deterministic state middleware for distributed research projects.
pub mod agent;
pub mod block;
pub mod cli;
pub mod commands;
pub mod comments;
pub mod config;
pub mod cycle_guard;
pub mod discussion;
pub mod editable_surface;
pub mod github;
pub mod github_debug;
pub mod globs;
pub mod hardware;
pub mod json;
pub mod labels;
pub mod laws;
pub mod ledger;
pub mod metric;
pub mod paths;
pub mod preflight;
pub mod read_back;
pub mod sort;
pub mod standing;
pub mod state;
pub mod text;
pub mod text_set;
pub mod throttle;
pub mod time;
pub mod tui;
pub mod validation;
pub mod worker;
