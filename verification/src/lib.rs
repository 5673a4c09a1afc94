//! KwaaiNet node library: configuration, block placement, model-file
//! selection and the small wire formats used by the node.

pub mod text;
pub mod parse;
pub mod config;
pub mod fmt;
pub mod display;
pub mod rebalancer;
pub mod hf;
pub mod updater;
pub mod varint;
pub mod p2p;
pub mod dht;
pub mod daemon;
pub mod cli;
pub mod credential;
pub mod did;
pub mod summit;
pub mod service;
pub mod shard;
pub mod node;
pub mod api;
pub mod crawler;
pub mod setup;
pub mod msgpack;
pub mod records;
pub mod announce;
