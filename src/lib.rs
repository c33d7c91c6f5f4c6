//! Encrypted UDP relay and discovery for a game network protocol: the packet
//! codec, the directory and server-info replies, the console grammar, the fuzz
//! policy and the relay session's decisions.
pub mod codec;
pub mod command;
pub mod directory;
pub mod fuzz;
pub mod hex_ii;
pub mod probe;
mod random;
pub mod relay;
