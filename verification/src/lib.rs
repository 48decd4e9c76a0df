//! Core of a BitTorrent download engine: the peer wire codec, the per-peer
//! session state, and the bookkeeping of the piece scheduler, with their
//! behaviour stated as contracts.

pub mod bitfield;
pub mod client;
pub mod digest;
pub mod endian;
pub mod error;
pub mod handshake;
pub mod message;
pub mod p2p;
pub mod peers;
pub mod text;
pub mod torrentfile;
pub mod tracker;
