//! `cratetorrent` is a peer-to-peer file-sharing engine implementing the
//! BitTorrent version 1 protocol.
//!
//! This crate is the engine's logic: the wire protocol, the bookkeeping of
//! pieces and blocks, the layout of a torrent's files on disk, and the decisions
//! that peer sessions, torrents and the disk make on each event. Its contracts
//! are proved by Verus. Sockets, files, timers and the terminal are left to the
//! program around it, which hands events in and performs the actions it gets
//! back.

pub mod alert;
pub mod app;
pub mod avg;
pub mod bitfield;
pub mod block;
pub mod buffer;
pub mod conf;
pub mod counter;
pub mod disk;
pub mod download;
pub mod engine;
pub mod error;
pub mod hash;
pub mod iovecs;
pub mod metainfo;
pub mod peer;
pub mod piece_picker;
pub mod requests;
pub mod storage_info;
pub mod text;
pub mod time;
pub mod torrent;
pub mod tracker;
pub mod unit;

pub use bitfield::Bitfield;
pub use block::{
    block_count, block_len, Block, BlockData, BlockInfo, CachedBlock, FileIndex, PeerId,
    PieceIndex, Sha1Hash, Side, TorrentId, BLOCK_LEN,
};
