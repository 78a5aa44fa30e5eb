//! Translation strategies: the shared response handling, the quality-gated
//! retry state machine, and the per-mode sentence logic.

pub mod common;
pub mod context;
pub mod llm;
pub mod nlp;
pub mod simple;
