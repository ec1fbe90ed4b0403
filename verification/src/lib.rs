//! Verified core of the aicommit command-line assistant.
pub mod ai;
pub mod commands;
pub mod errors;
pub mod generator;
pub mod paths;
pub mod push;
pub mod text;
pub mod token;
pub mod ui;
