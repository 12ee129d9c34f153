//! A reliable, ordered byte stream over UDP datagrams.

pub mod acknowledging;
pub mod answering;
pub mod buffer;
pub mod calls;
pub mod config;
pub mod connection;
pub mod course;
pub mod delivery;
pub mod dialer;
pub mod error;
pub mod io;
pub mod layout;
pub mod lifetime;
pub mod listener;
pub mod output;
pub mod receiving;
pub mod register;
pub mod round_trip;
pub mod segment;
pub mod sending;
pub mod state;
pub mod updater;
