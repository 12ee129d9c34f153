//! Sending as fast as the path has shown to carry.

pub mod bandwidth;
pub mod bandwidth_sampler;
pub mod bbr_sender;
pub mod clock;
pub mod packet_queue;
pub mod profile;
pub mod ringbuffer;
