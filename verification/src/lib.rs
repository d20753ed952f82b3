//! Serial multiplexer with consonance analysis: the verified core.

pub mod consonance;
pub mod daemon;
pub mod dashboard;
pub mod multiplexer;
pub mod protocol;
pub mod websocket;
