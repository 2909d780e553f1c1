//! Protocol engine of a dedicated Minecraft Bedrock server.
//!
//! - `varint`, `window`, `field`: integers of variable length, bytes at a
//!   position, and the fields that packets are made of.
//! - `packing`, `entry`, `palette`: the paletted storage of a sub-chunk and
//!   its binary layout.
//! - `packet`, `frame`: the packets and their frames.
//! - `handshake`: the login handshake as a state machine.
//! - `shard`: the state of one connection, with its queue and its ticks.
//! - `server`: what the server answers to its clients.
//! - `config`: the settings and their defaults.
//!
//! Nothing here does input or output. Every function says in its contract
//! what it gives, over the bytes and values that the modules define.

pub mod config;
pub mod entry;
pub mod field;
pub mod frame;
pub mod handshake;
pub mod packet;
pub mod packing;
pub mod palette;
pub mod server;
pub mod shard;
pub mod varint;
pub mod window;
