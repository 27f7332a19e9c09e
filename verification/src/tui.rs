//! The interactive application's state machine.

pub mod app;
pub mod filters;
pub mod keys;
pub mod modals;
pub mod results;
pub mod review;
