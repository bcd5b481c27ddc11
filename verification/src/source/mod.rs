//! Position sources: where aircraft observations come from.
pub mod network;

pub use network::NetworkSource;
