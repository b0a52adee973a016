//! Contains the types that a metainfo file is directly deserialized into, but is
//! not to be used by the rest of the crate, as the validity of the parsed
//! structure is not ensured at this level. The semantic validation happens in the
//! [`Metainfo`](super::Metainfo) type, which is essentially a mapping of
//! [`Metainfo`], but with semantic requirements encoded in the type system.

use vstd::prelude::*;

use crate::block::Sha1Hash;
use crate::hash::{sha1, sha1_digest};

verus! {

#[derive(Clone, Debug)]
pub struct Metainfo {
    pub info: Info,
    pub announce: Option<String>,
    pub announce_list: Vec<Vec<String>>,
}

impl Metainfo {
    /// Creates a SHA-1 hash of the encoded `info` field's value.
    pub fn create_info_hash(encoded_info: &[u8]) -> (hash: Sha1Hash)
        ensures
            hash@ == sha1(encoded_info@),
    {
        sha1_digest(encoded_info)
    }
}

#[derive(Clone, Debug)]
pub struct Info {
    pub name: String,
    pub pieces: Vec<u8>,
    pub piece_len: u32,
    pub len: Option<u64>,
    pub files: Option<Vec<File>>,
    /// This is not currently used but needs to be kept in here so that we
    /// can encode back a valid info hash for hashing.
    pub private: Option<u8>,
}

#[derive(Clone, Debug)]
pub struct File {
    pub path: Vec<String>,
    pub len: u64,
}

} // verus!
