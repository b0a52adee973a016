//! The mode in which the engine runs a torrent.

use vstd::prelude::*;

use crate::bitfield::{max_bits, Bitfield};
use crate::tracker::Addr;

verus! {

/// Whether a torrent is downloaded or seeded.
#[derive(Debug)]
pub enum Mode {
    /// The torrent is downloaded, from these seeds among others.
    Download { seeds: Vec<Addr> },
    /// The torrent is seeded.
    Seed,
}

impl Mode {
    /// Returns the pieces that we have at the start: none of a download, and all
    /// of a torrent that we seed.
    pub fn own_pieces(&self, piece_count: usize) -> (pieces: Bitfield)
        requires
            piece_count <= max_bits(),
        ensures
            pieces@ == Seq::new(piece_count as nat, |i: int| self is Seed),
    {
        match self {
            Mode::Download { .. } => {
                let pieces = Bitfield::repeat(false, piece_count);
                assert(pieces@ =~= Seq::new(piece_count as nat, |i: int| self is Seed));
                pieces
            },
            Mode::Seed => {
                let pieces = Bitfield::repeat(true, piece_count);
                assert(pieces@ =~= Seq::new(piece_count as nat, |i: int| self is Seed));
                pieces
            },
        }
    }

    /// Returns the seeds from which to download.
    pub fn seeds(self) -> (seeds: Vec<Addr>)
        ensures
            seeds@ == match self {
                Mode::Download { seeds } => seeds@,
                Mode::Seed => Seq::empty(),
            },
    {
        match self {
            Mode::Download { seeds } => seeds,
            Mode::Seed => Vec::new(),
        }
    }
}

} // verus!
