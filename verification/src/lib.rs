//! Request-processing core of a WebTorrent-style tracker: swarms of
//! peers keyed by info hash, announce and scrape handling with
//! incrementally maintained seeder/leecher counters, bounded random peer
//! sampling for WebRTC offer relay, and the batch classification the
//! request worker loop runs on.

pub mod common;
pub mod config;
pub mod handler;
pub mod model;
pub mod protocol;
pub mod swarm;
