//! Verified cores of two UDP based transports: the reliable datagram protocol
//! in [`kcp`] and the QUIC based transport in [`hysteria`].

pub mod decimal;
pub mod hysteria;
pub mod json;
pub mod kcp;
pub mod net;
pub mod text;
pub mod wire;
