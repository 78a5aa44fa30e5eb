//! Media processing commands: building the encoder's argument lists.
//! Running the encoder binary is the caller's business.

pub mod commands;
pub mod processor;
