//! Planespotter: watch geographic regions and report the aircraft inside them.
pub mod board;
pub mod config;
pub mod console;
pub mod document;
pub mod double;
pub mod engine;
pub mod enrich;
pub mod geo;
pub mod laws;
pub mod model;
pub mod source;
pub mod text;
pub mod time;
