//! Deciding how fast to send.

pub mod bbr;
pub mod brutal;
pub mod pacer;
pub mod types;
pub mod utils;
