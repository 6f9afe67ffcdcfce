//! The peer side of a BitTorrent client.

pub mod bencode;
pub mod bitfield;
pub mod blocks;
pub mod digest;
pub mod disk;
pub mod error;
pub mod extension;
pub mod laws;
pub mod laws_bencode;
pub mod laws_formats;
pub mod laws_metadata;
pub mod laws_run;
pub mod magnet;
pub mod messages;
pub mod metainfo;
pub mod peer;
pub mod session;
pub mod torrent;
pub mod tracker;
