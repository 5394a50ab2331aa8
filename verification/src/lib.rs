//! Verified core of a stock quote streaming service: command parsing,
//! the quote wire format, the quote book and the keep-alive registry.

pub mod text;
pub mod errors;
pub mod command;
pub mod client;
pub mod quote;
pub mod generator;
pub mod session;
pub mod laws;
