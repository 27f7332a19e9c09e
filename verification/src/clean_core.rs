//! UI-agnostic core: data model, filtering, detection and deletion bookkeeping.

pub mod model;
pub mod outcome;
pub mod filter;
pub mod algorithms;
pub mod delete;
pub mod scanner;
