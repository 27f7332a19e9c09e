//! crab-clean: find and safely remove duplicate, old and unused files.

pub mod text;
pub mod clean_core;
pub mod config;
pub mod error;
pub mod cli;
pub mod numbers;
pub mod tui;
pub mod sorting;
