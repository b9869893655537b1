//! An interpreter for compact, marker-delimited messages that describe
//! chains of host actions, checked against a stored allow-list of receivers.
pub mod assets;
pub mod codec;
pub mod engine;
pub mod laws;
pub mod scan;
pub mod state;
pub mod tokens;
