//! Incremental crawler core for one fixed forum board: pagination
//! arithmetic, a retrying fetch state machine, and a structured
//! extraction engine that turns the board's markup dialect into typed
//! post records.

pub mod board;
pub mod body;
pub mod chars;
pub mod dom;
pub mod fetch;
pub mod patterns;
pub mod res;
pub mod seek;
pub mod timestamp;
pub mod pagination;
