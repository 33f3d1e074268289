//! Core of a Git-compatible server: binary deltas between two revisions of an
//! object, the cache that resolves decoded pack objects by hash and by pack
//! offset, and the smart HTTP transport (pkt-line framing, ref advertisement,
//! upload-pack and receive-pack).

pub mod errors;
pub mod hex;
pub mod text;
pub mod hash;
pub mod object;
pub mod delta;
pub mod script;
pub mod diff;
pub mod patch;
pub mod round_trip;
pub mod protocol;
pub mod cache;
pub mod buffer;
pub mod pktline;
pub mod sideband;
pub mod upload_pack;
pub mod receive_pack;
pub mod http_protocol;
pub mod nodes;
