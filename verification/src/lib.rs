//! Server-side core of a binary client-server protocol: a variable-length
//! integer codec, string and frame codecs, a per-connection protocol state
//! machine, and a registry-data packet encoder.

pub mod connection;
pub mod packets;
pub mod registry;
pub mod registry_data;
pub mod utils;
pub mod varint;
