//! A clock-synchronised step sequencer: the scheduling engine that turns a
//! coarse external timing clock into note and control events for a set of
//! instruments, arranged in scenes and tracks.

pub mod config;
pub mod context;
pub mod controller;
pub mod midi;
pub mod models;
pub mod sequence_player;
pub mod performance;
