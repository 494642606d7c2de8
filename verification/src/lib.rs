//! Extraction of chat messages from a game client's log text.
//!
//! The library works in two stages: a line extractor that recovers a
//! timestamp and payload from every line of the watched logging channel,
//! and a classifier that turns payloads into structured chat messages.

pub mod laws;
pub mod parser;
pub mod scan;
