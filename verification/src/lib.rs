//! Core of a fuzzy directory jumper: query matching, scoring, ranking, history
//! imports, shell integration and command-line decisions.

pub mod args;
pub mod cli;
pub mod export;
pub mod flow;
pub mod import;
pub mod init;
pub mod outside;
pub mod pattern;
pub mod rank;
pub mod render;
pub mod report;
pub mod score;
pub mod search;
pub mod shell;
pub mod stats;
pub mod store;
pub mod text;
