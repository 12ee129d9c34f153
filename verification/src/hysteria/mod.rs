//! A transport over QUIC that looks like a web server to strangers.

pub mod auth;
pub mod calls;
pub mod config;
pub mod congestion;
pub mod conn;
pub mod context;
pub mod dialer;
pub mod error;
pub mod headers;
pub mod hub;
pub mod obfs;
pub mod proto_config;
pub mod quic_params;
mod random;
pub mod register;
pub mod udp_sessions;
pub mod udphop;
