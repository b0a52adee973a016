//! The state that an application shows of its torrents.

use std::collections::BTreeMap;
use std::ops::Range;

use vstd::prelude::*;
use vstd::string::StringExecFns;

use crate::block::{PieceIndex, TorrentId};
use crate::disk::piece::{are_overlaps, file_slices, overlap};
use crate::engine::Mode;
use crate::metainfo::Metainfo;
use crate::storage_info::{
    files_wf, is_intersection, law_intersecting_files_are_exact, lemma_byte_has_file, lemma_piece_end,
    lemma_single_file_intersects, lemma_total_len_grows, total_len, FileInfo, FileSlice, StorageInfo,
};
use crate::text::{decimal, is_empty, is_text, push_decimal};
use crate::time::Duration;
use crate::torrent::stats::{PieceStats, ThroughputStats, TorrentStats};

verus! {

broadcast use vstd::std_specs::btree::group_btree_axioms;

/// The number of rounds of which the throughput rates are kept.
pub const HISTORY_LIMIT: usize = 100;

/// The number of completed pieces that are kept.
pub const COMPLETED_LIMIT: usize = 100;

/// The throughput of a torrent over the last rounds.
#[derive(Debug)]
pub struct ThroughputHistory {
    pub peak: u64,
    pub total: u64,
    pub rate_history: Vec<u64>,
}

/// The rates after another one was added. If there are as many as the limit, the
/// first one is dropped.
pub open spec fn rates_with(rates: Seq<u64>, rate: u64, limit: int) -> Seq<u64> {
    (if rates.len() >= limit {
        rates.skip(1)
    } else {
        rates
    }).push(rate)
}

impl ThroughputHistory {
    /// Whether nothing was recorded yet.
    pub open spec fn is_initial(&self) -> bool {
        &&& self.peak == 0
        &&& self.total == 0
        &&& self.rate_history@ == Seq::<u64>::empty()
    }
}

impl Default for ThroughputHistory {
    fn default() -> (history: Self)
        ensures
            history.is_initial(),
    {
        ThroughputHistory { peak: 0, total: 0, rate_history: Vec::new() }
    }
}

impl ThroughputHistory {
    /// Records the throughput of a round.
    pub fn update(&mut self, stats: &ThroughputStats, limit: usize)
        requires
            limit > 0 || old(self).rate_history@.len() > 0,
        ensures
            final(self).rate_history@ == rates_with(
                old(self).rate_history@,
                stats.rate,
                limit as int,
            ),
            final(self).peak == stats.peak,
            final(self).total == stats.total,
    {
        if self.rate_history.len() >= limit {
            // pop the first element
            let ghost before = self.rate_history@;
            self.rate_history.remove(0);
            assert(self.rate_history@ =~= before.skip(1));
        }
        self.rate_history.push(stats.rate);
        self.peak = stats.peak;
        self.total = stats.total;
    }
}

/// The history never holds more rates than the limit, and always ends with the
/// latest one.
pub proof fn law_history_is_limited(rates: Seq<u64>, rate: u64, limit: int)
    requires
        0 < limit,
        rates.len() <= limit,
    ensures
        rates_with(rates, rate, limit).len() <= limit,
        rates_with(rates, rate, limit).last() == rate,
{
}

/// A file of a torrent and how much of it is complete.
#[derive(Debug)]
pub struct FileStats {
    pub info: FileInfo,
    pub complete: u64,
}

/// Holds state about a single torrent.
#[derive(Debug)]
pub struct Torrent {
    pub name: String,
    pub info_hash: String,
    pub piece_len: u32,
    pub download_len: u64,
    pub storage: StorageInfo,
    pub run_duration: Duration,
    pub pieces: PieceStats,
    pub peer_count: usize,
    pub files: Vec<FileStats>,
    pub downloaded_payload_stats: ThroughputHistory,
    pub wasted_payload_count: u64,
    pub uploaded_payload_stats: ThroughputHistory,
    pub downloaded_protocol_stats: ThroughputHistory,
    pub uploaded_protocol_stats: ThroughputHistory,
}

/// The lower-case hexadecimal digit.
pub open spec fn hex_digit(d: int) -> char {
    seq!['0', '1', '2', '3', '4', '5', '6', '7', '8', '9', 'a', 'b', 'c', 'd', 'e', 'f'][d]
}

/// The hexadecimal text of the bytes: two digits for each byte.
pub open spec fn hex_text(bytes: Seq<u8>) -> Seq<char> {
    Seq::new(
        2 * bytes.len(),
        |i: int|
            hex_digit(
                if i % 2 == 0 {
                    bytes[i / 2] as int / 16
                } else {
                    bytes[i / 2] as int % 16
                },
            ),
    )
}

/// The `hex` function `encode` gives the lower-case hexadecimal text of the bytes.
#[verifier::external_body]
fn hex_encode(bytes: &[u8]) -> (text: String)
    ensures
        text@ == hex_text(bytes@),
{
    hex::encode(bytes)
}

/// How many bytes of the file are in the range of bytes of the torrent.
pub open spec fn bytes_in(file: FileInfo, start: int, end: int) -> int {
    let from = if start > file.torrent_offset {
        start
    } else {
        file.torrent_offset as int
    };
    let to = if end < file.end() {
        end
    } else {
        file.end()
    };
    if from < to {
        to - from
    } else {
        0
    }
}

/// How many bytes of the file are in the pieces.
pub open spec fn bytes_in_pieces(storage: StorageInfo, file: FileInfo, pieces: Seq<usize>) -> int
    decreases pieces.len(),
{
    if pieces.len() == 0 {
        0
    } else {
        let index = pieces.last() as int;
        bytes_in_pieces(storage, file, pieces.drop_last()) + bytes_in(
            file,
            storage.piece_offset(index),
            storage.piece_offset(index) + storage.len_of_piece(index),
        )
    }
}

/// The files of the statistics.
pub open spec fn infos_of(files: Seq<FileStats>) -> Seq<FileInfo> {
    files.map_values(|file: FileStats| file.info)
}

/// The latest pieces that were completed: those known before and the new ones, but
/// not more than the limit.
pub open spec fn latest_pieces(existing: Seq<usize>, new: Seq<usize>) -> Seq<usize> {
    let all = existing + new;
    if all.len() > COMPLETED_LIMIT {
        all.skip(all.len() - COMPLETED_LIMIT)
    } else {
        all
    }
}

impl Torrent {
    /// Whether the files are those of the torrent's storage, which its pieces make
    /// up.
    pub open spec fn wf(&self) -> bool {
        &&& self.storage.pieces_cover_files()
        &&& infos_of(self.files@) == self.storage.structure.files()
        &&& forall|i: int|
            0 <= i < self.files@.len() ==> (#[trigger] self.files@[i]).complete
                <= self.files@[i].info.len
    }

    /// Whether the pieces can be added to what is complete: they are pieces of the
    /// torrent, and no file gets more complete than it is long.
    pub open spec fn can_complete(&self, pieces: Seq<usize>) -> bool {
        &&& forall|k: int|
            0 <= k < pieces.len() ==> #[trigger] pieces[k] < self.storage.piece_count
        &&& forall|i: int|
            0 <= i < self.files@.len() ==> (#[trigger] self.files@[i]).complete + bytes_in_pieces(
                self.storage,
                self.files@[i].info,
                pieces,
            ) <= self.files@[i].info.len
    }
}

/// The bytes of a file that are in a range of bytes, if the file was found for the
/// range, and otherwise there are none.
proof fn lemma_bytes_in_range(
    files: Seq<FileInfo>,
    start: int,
    end: int,
    range: Range<usize>,
    i: int,
)
    requires
        files_wf(files),
        0 <= start < end <= total_len(files),
        is_intersection(files, start, end, range),
        0 <= i < files.len(),
        total_len(files) <= u64::MAX,
    ensures
        bytes_in(files[i], start, end) == if range.start <= i < range.end {
            overlap(files[i], start, end).len as int
        } else {
            0
        },
{
    law_intersecting_files_are_exact(files, start, end, range, i);
    let file = files[i];
    let from = if start > file.torrent_offset {
        start
    } else {
        file.torrent_offset as int
    };
    if range.start <= i < range.end {
        let offset = choose|offset: int| start <= offset < end && #[trigger] file.has_byte(offset);
        assert(from <= offset);
    } else if bytes_in(file, start, end) > 0 {
        assert(file.has_byte(from));
    }
}

proof fn lemma_bytes_in_pieces_grow(storage: StorageInfo, file: FileInfo, pieces: Seq<usize>, n: int)
    requires
        0 <= n <= pieces.len(),
    ensures
        0 <= bytes_in_pieces(storage, file, pieces.take(n)) <= bytes_in_pieces(
            storage,
            file,
            pieces,
        ),
    decreases pieces.len(),
{
    if n < pieces.len() {
        lemma_bytes_in_pieces_grow(storage, file, pieces.drop_last(), n);
        assert(pieces.drop_last().take(n) =~= pieces.take(n));
    } else {
        assert(pieces.take(n) =~= pieces);
        if n > 0 {
            lemma_bytes_in_pieces_grow(storage, file, pieces.drop_last(), n - 1);
            assert(pieces.drop_last().take(n - 1) =~= pieces.drop_last());
        }
    }
}

impl Torrent {
    /// Whether everything but the completion of files is the same.
    pub open spec fn same_but_files(&self, other: &Torrent) -> bool {
        &&& self.name == other.name
        &&& self.info_hash == other.info_hash
        &&& self.piece_len == other.piece_len
        &&& self.download_len == other.download_len
        &&& self.storage == other.storage
        &&& self.run_duration == other.run_duration
        &&& self.pieces == other.pieces
        &&& self.peer_count == other.peer_count
        &&& self.downloaded_payload_stats == other.downloaded_payload_stats
        &&& self.wasted_payload_count == other.wasted_payload_count
        &&& self.uploaded_payload_stats == other.uploaded_payload_stats
        &&& self.downloaded_protocol_stats == other.downloaded_protocol_stats
        &&& self.uploaded_protocol_stats == other.uploaded_protocol_stats
    }

    /// Creates the state of a torrent that is started now.
    pub fn new(metainfo: &Metainfo, storage: StorageInfo, is_seed: bool) -> (torrent: Self)
        requires
            metainfo.structure.wf(),
            storage.wf(),
        ensures
            torrent.name == metainfo.name,
            torrent.info_hash@ == hex_text(metainfo.info_hash@),
            torrent.piece_len == metainfo.piece_len,
            torrent.download_len == metainfo.download_len(),
            torrent.storage == storage,
            torrent.run_duration.nanos == 0,
            torrent.peer_count == 0,
            torrent.wasted_payload_count == 0,
            torrent.downloaded_payload_stats.is_initial(),
            torrent.uploaded_payload_stats.is_initial(),
            torrent.downloaded_protocol_stats.is_initial(),
            torrent.uploaded_protocol_stats.is_initial(),
            infos_of(torrent.files@) == storage.structure.files(),
            forall|i: int|
                0 <= i < torrent.files@.len() ==> (#[trigger] torrent.files@[i]).complete == if is_seed {
                    torrent.files@[i].info.len
                } else {
                    0
                },
            torrent.pieces.total == metainfo.pieces@.len() / 20,
            torrent.pieces.pending == 0,
            torrent.pieces.complete == if is_seed {
                torrent.pieces.total
            } else {
                0
            },
            is_seed ==> torrent.pieces.latest_completed is None,
            !is_seed ==> (torrent.pieces.latest_completed matches Some(latest) && latest@.len()
                == 0),
    {
        let files: Vec<FileStats> = file_stats(&storage, is_seed);
        let piece_count: usize = metainfo.piece_count();
        let pieces: PieceStats = if is_seed {
            PieceStats {
                total: piece_count,
                pending: 0,
                complete: piece_count,
                latest_completed: None,
            }
        } else {
            PieceStats {
                total: piece_count,
                pending: 0,
                complete: 0,
                latest_completed: Some(Vec::new()),
            }
        };
        Torrent {
            name: metainfo.name.clone(),
            info_hash: hex_encode(&metainfo.info_hash),
            piece_len: metainfo.piece_len,
            download_len: metainfo.structure.download_len(),
            storage,
            run_duration: Duration { nanos: 0 },
            pieces,
            peer_count: 0,
            files,
            downloaded_payload_stats: ThroughputHistory::default(),
            wasted_payload_count: 0,
            uploaded_payload_stats: ThroughputHistory::default(),
            downloaded_protocol_stats: ThroughputHistory::default(),
            uploaded_protocol_stats: ThroughputHistory::default(),
        }
    }

    /// Tells whether the pieces can be added to what is complete.
    pub fn check_pieces(&self, pieces: &Vec<PieceIndex>) -> (r: bool)
        requires
            self.wf(),
        ensures
            r == self.can_complete(pieces@),
    {
        let mut k: usize = 0;
        while k < pieces.len()
            invariant
                k <= pieces@.len(),
                forall|j: int| 0 <= j < k ==> #[trigger] pieces@[j] < self.storage.piece_count,
            decreases pieces@.len() - k,
        {
            if pieces[k] >= self.storage.piece_count {
                return false;
            }
            k = k + 1;
        }
        let mut i: usize = 0;
        while i < self.files.len()
            invariant
                i <= self.files@.len(),
                self.wf(),
                forall|j: int|
                    0 <= j < pieces@.len() ==> #[trigger] pieces@[j] < self.storage.piece_count,
                forall|j: int|
                    0 <= j < i ==> (#[trigger] self.files@[j]).complete + bytes_in_pieces(
                        self.storage,
                        self.files@[j].info,
                        pieces@,
                    ) <= self.files@[j].info.len,
            decreases self.files@.len() - i,
        {
            if !self.file_has_room(i, pieces) {
                return false;
            }
            i = i + 1;
        }
        true
    }

    /// Tells whether the file does not get more complete than it is long with the
    /// pieces.
    fn file_has_room(&self, i: usize, pieces: &Vec<PieceIndex>) -> (r: bool)
        requires
            self.wf(),
            i < self.files@.len(),
            forall|j: int|
                0 <= j < pieces@.len() ==> #[trigger] pieces@[j] < self.storage.piece_count,
        ensures
            r == (self.files@[i as int].complete + bytes_in_pieces(
                self.storage,
                self.files@[i as int].info,
                pieces@,
            ) <= self.files@[i as int].info.len),
    {
        let file: &FileInfo = &self.files[i].info;
        assert(infos_of(self.files@)[i as int] == *file);
        let mut complete: u64 = self.files[i].complete;
        let mut k: usize = 0;
        while k < pieces.len()
            invariant
                k <= pieces@.len(),
                self.wf(),
                i < self.files@.len(),
                *file == self.files@[i as int].info,
                file.wf(),
                forall|j: int|
                    0 <= j < pieces@.len() ==> #[trigger] pieces@[j] < self.storage.piece_count,
                complete == self.files@[i as int].complete + bytes_in_pieces(
                    self.storage,
                    *file,
                    pieces@.take(k as int),
                ),
                complete <= file.len,
            decreases pieces@.len() - k,
        {
            let index: usize = pieces[k];
            proof {
                lemma_piece_end(self.storage, index as int);
                assert(pieces@.take(k + 1).drop_last() =~= pieces@.take(k as int));
                lemma_bytes_in_pieces_grow(self.storage, *file, pieces@, k + 1);
            }
            let start: u64 = index as u64 * self.storage.piece_len as u64;
            let len: u32 = if index == self.storage.piece_count - 1 {
                self.storage.last_piece_len
            } else {
                self.storage.piece_len
            };
            let end: u64 = start + len as u64;
            let from: u64 = if start > file.torrent_offset {
                start
            } else {
                file.torrent_offset
            };
            let to: u64 = if end < file.torrent_offset + file.len {
                end
            } else {
                file.torrent_offset + file.len
            };
            if from < to {
                if to - from > file.len - complete {
                    return false;
                }
                complete = complete + (to - from);
            }
            k = k + 1;
        }
        assert(pieces@.take(k as int) =~= pieces@);
        true
    }

    /// Updates the completion of the files that a completed piece overlaps with.
    fn complete_piece(&mut self, index: PieceIndex)
        requires
            old(self).wf(),
            index < old(self).storage.piece_count,
            forall|i: int|
                0 <= i < old(self).files@.len() ==> (#[trigger] old(self).files@[i]).complete
                    + bytes_in(
                    old(self).files@[i].info,
                    old(self).storage.piece_offset(index as int),
                    old(self).storage.piece_offset(index as int)
                        + old(self).storage.len_of_piece(index as int),
                ) <= old(self).files@[i].info.len,
        ensures
            final(self).wf(),
            final(self).same_but_files(&*old(self)),
            final(self).files@.len() == old(self).files@.len(),
            forall|i: int|
                0 <= i < old(self).files@.len() ==> {
                    &&& (#[trigger] final(self).files@[i]).info == old(self).files@[i].info
                    &&& final(self).files@[i].complete == old(self).files@[i].complete + bytes_in(
                        old(self).files@[i].info,
                        old(self).storage.piece_offset(index as int),
                        old(self).storage.piece_offset(index as int)
                            + old(self).storage.len_of_piece(index as int),
                    )
                },
    {
        let ghost storage = self.storage;
        let ghost all = storage.structure.files();
        let ghost start = storage.piece_offset(index as int);
        let ghost end = start + storage.len_of_piece(index as int);
        let ghost before = self.files@;
        proof {
            lemma_piece_end(storage, index as int);
            lemma_single_file_intersects(storage.structure, start, end);
        }
        let piece_len: u32 = match self.storage.piece_len(index) {
            Ok(piece_len) => piece_len,
            Err(_) => return ,
        };
        let file_range: Range<usize> = match self.storage.files_intersecting_piece(index) {
            Ok(file_range) => file_range,
            Err(_) => return ,
        };
        let infos: Vec<FileInfo> = self.storage.structure.to_files();
        let torrent_piece_offset: u64 = index as u64 * self.storage.piece_len as u64;
        proof {
            lemma_byte_has_file(all, start);
            assert forall|i: int| 0 <= i < before.len() implies before[i].info
                == #[trigger] all[i] by {
                assert(infos_of(before)[i] == before[i].info);
            }
            assert(before.len() == all.len());
        }
        let slices: Vec<FileSlice> = file_slices(
            &infos,
            &file_range,
            torrent_piece_offset,
            piece_len as u64,
        );
        proof {
            assert forall|k: int| 0 <= k < all.len() implies #[trigger] bytes_in(all[k], start, end)
                == if file_range.start <= k < file_range.end {
                overlap(all[k], start, end).len as int
            } else {
                0
            } by {
                lemma_bytes_in_range(all, start, end, file_range, k);
            }
        }
        let mut i: usize = file_range.start;
        while i < file_range.end
            invariant
                file_range.start <= i <= file_range.end <= all.len(),
                slices@.len() == file_range.end - file_range.start,
                self.same_but_files(&*old(self)),
                self.files@.len() == all.len(),
                before.len() == all.len(),
                are_overlaps(all, file_range.start as int, start, end, slices@),
                forall|k: int| 0 <= k < all.len() ==> (#[trigger] before[k]).info == all[k],
                forall|k: int|
                    0 <= k < all.len() ==> before[k].complete + (#[trigger] bytes_in(
                        all[k],
                        start,
                        end,
                    )) <= all[k].len,
                forall|k: int|
                    0 <= k < all.len() ==> #[trigger] bytes_in(all[k], start, end) == if file_range.start
                        <= k < file_range.end {
                        overlap(all[k], start, end).len as int
                    } else {
                        0
                    },
                forall|k: int|
                    0 <= k < all.len() ==> {
                        &&& (#[trigger] self.files@[k]).info == all[k]
                        &&& self.files@[k].complete == before[k].complete + if file_range.start <= k
                            < i {
                            bytes_in(all[k], start, end)
                        } else {
                            0
                        }
                    },
            decreases file_range.end - i,
        {
            let slice: FileSlice = slices[i - file_range.start];
            proof {
                assert(slice == overlap(all[i as int], start, end));
                assert(bytes_in(all[i as int], start, end) == slice.len);
                assert(self.files@[i as int].complete == before[i as int].complete);
            }
            let complete: u64 = self.files[i].complete;
            self.files[i].complete = complete + slice.len;
            i = i + 1;
        }
        proof {
            assert(infos_of(self.files@) =~= all);
        }
    }
}

/// Returns the statistics of the files at the start of a torrent.
fn file_stats(storage: &StorageInfo, is_seed: bool) -> (files: Vec<FileStats>)
    ensures
        infos_of(files@) == storage.structure.files(),
        forall|i: int|
            0 <= i < files@.len() ==> (#[trigger] files@[i]).complete == if is_seed {
                files@[i].info.len
            } else {
                0
            },
{
    let infos: Vec<FileInfo> = storage.structure.to_files();
    let mut files: Vec<FileStats> = Vec::new();
    let mut i: usize = 0;
    while i < infos.len()
        invariant
            i <= infos@.len(),
            files@.len() == i,
            forall|k: int|
                0 <= k < i ==> {
                    &&& (#[trigger] files@[k]).info == infos@[k]
                    &&& files@[k].complete == if is_seed {
                        infos@[k].len
                    } else {
                        0
                    }
                },
        decreases infos@.len() - i,
    {
        let info: FileInfo = infos[i].clone();
        let complete: u64 = if is_seed {
            info.len
        } else {
            0
        };
        files.push(FileStats { info, complete });
        i = i + 1;
    }
    assert(infos_of(files@) =~= infos@);
    files
}

impl Torrent {
    /// Updates the completion of the files by the pieces that were completed.
    fn complete_pieces(&mut self, pieces: &Vec<PieceIndex>)
        requires
            old(self).wf(),
            old(self).can_complete(pieces@),
        ensures
            final(self).wf(),
            final(self).same_but_files(&*old(self)),
            final(self).files@.len() == old(self).files@.len(),
            forall|i: int|
                0 <= i < old(self).files@.len() ==> {
                    &&& (#[trigger] final(self).files@[i]).info == old(self).files@[i].info
                    &&& final(self).files@[i].complete == old(self).files@[i].complete
                        + bytes_in_pieces(old(self).storage, old(self).files@[i].info, pieces@)
                },
    {
        let ghost before = self.files@;
        let ghost storage = self.storage;
        let mut n: usize = 0;
        while n < pieces.len()
            invariant
                n <= pieces@.len(),
                self.wf(),
                self.storage == storage,
                self.same_but_files(&*old(self)),
                self.files@.len() == before.len(),
                forall|k: int|
                    0 <= k < pieces@.len() ==> #[trigger] pieces@[k] < storage.piece_count,
                forall|i: int|
                    0 <= i < before.len() ==> (#[trigger] before[i]).complete + bytes_in_pieces(
                        storage,
                        before[i].info,
                        pieces@,
                    ) <= before[i].info.len,
                forall|i: int|
                    0 <= i < before.len() ==> {
                        &&& (#[trigger] self.files@[i]).info == before[i].info
                        &&& self.files@[i].complete == before[i].complete + bytes_in_pieces(
                            storage,
                            before[i].info,
                            pieces@.take(n as int),
                        )
                    },
            decreases pieces@.len() - n,
        {
            let index: PieceIndex = pieces[n];
            proof {
                let next = pieces@.take(n + 1);
                assert(next.drop_last() =~= pieces@.take(n as int));
                assert forall|i: int| 0 <= i < before.len() implies (#[trigger] self.files@[i]).complete
                    + bytes_in(
                    self.files@[i].info,
                    storage.piece_offset(index as int),
                    storage.piece_offset(index as int) + storage.len_of_piece(index as int),
                ) <= self.files@[i].info.len by {
                    assert(before[i].complete + bytes_in_pieces(storage, before[i].info, pieces@)
                        <= before[i].info.len);
                    lemma_bytes_in_pieces_grow(storage, before[i].info, pieces@, n + 1);
                    assert(next.last() == index);
                }
            }
            self.complete_piece(index);
            n = n + 1;
        }
        assert(pieces@.take(n as int) =~= pieces@);
    }

    /// Updates the state with the latest statistics of the torrent.
    pub fn update(&mut self, stats: TorrentStats)
        requires
            old(self).wf(),
            stats.pieces.latest_completed matches Some(pieces) ==> old(self).can_complete(pieces@),
        ensures
            final(self).wf(),
            is_updated(*old(self), stats, *final(self)),
    {
        // update file completion by checking which pieces were downloaded
        // this round
        if let Some(pieces) = &stats.pieces.latest_completed {
            self.complete_pieces(pieces);
        }
        // update piece download stats, but take care not to overwrite our
        // piece history, which is needed to produce a continuous event list
        let latest_completed: Option<Vec<PieceIndex>> = match (
            self.pieces.latest_completed.take(),
            stats.pieces.latest_completed,
        ) {
            (Some(existing), Some(new)) => Some(join_latest(&existing, &new)),
            _ => None,
        };
        self.pieces = PieceStats {
            total: stats.pieces.total,
            pending: stats.pieces.pending,
            complete: stats.pieces.complete,
            latest_completed,
        };
        self.run_duration = stats.run_duration;
        self.peer_count = stats.peer_count;
        self.downloaded_payload_stats.update(&stats.downloaded_payload_stats, HISTORY_LIMIT);
        self.uploaded_payload_stats.update(&stats.uploaded_payload_stats, HISTORY_LIMIT);
        self.downloaded_protocol_stats.update(&stats.downloaded_protocol_stats, HISTORY_LIMIT);
        self.uploaded_protocol_stats.update(&stats.uploaded_protocol_stats, HISTORY_LIMIT);
    }
}

/// Whether the state was updated with the latest statistics: the completed pieces
/// complete their part of the files, the latest completed pieces are kept, and the
/// throughput is recorded.
pub open spec fn is_updated(before: Torrent, stats: TorrentStats, after: Torrent) -> bool {
    &&& after.name == before.name
    &&& after.info_hash == before.info_hash
    &&& after.piece_len == before.piece_len
    &&& after.download_len == before.download_len
    &&& after.storage == before.storage
    &&& after.wasted_payload_count == before.wasted_payload_count
    &&& after.files@.len() == before.files@.len()
    &&& forall|i: int|
        0 <= i < before.files@.len() ==> {
            &&& (#[trigger] after.files@[i]).info == before.files@[i].info
            &&& after.files@[i].complete == before.files@[i].complete
                + match stats.pieces.latest_completed {
                Some(pieces) => bytes_in_pieces(before.storage, before.files@[i].info, pieces@),
                None => 0,
            }
        }
    &&& match (before.pieces.latest_completed, stats.pieces.latest_completed) {
        (Some(existing), Some(new)) => after.pieces.latest_completed matches Some(latest)
            && latest@ == latest_pieces(existing@, new@),
        _ => after.pieces.latest_completed is None,
    }
    &&& after.pieces.total == stats.pieces.total
    &&& after.pieces.pending == stats.pieces.pending
    &&& after.pieces.complete == stats.pieces.complete
    &&& after.run_duration == stats.run_duration
    &&& after.peer_count == stats.peer_count
    &&& recorded(
        before.downloaded_payload_stats,
        stats.downloaded_payload_stats,
        after.downloaded_payload_stats,
    )
    &&& recorded(
        before.uploaded_payload_stats,
        stats.uploaded_payload_stats,
        after.uploaded_payload_stats,
    )
    &&& recorded(
        before.downloaded_protocol_stats,
        stats.downloaded_protocol_stats,
        after.downloaded_protocol_stats,
    )
    &&& recorded(
        before.uploaded_protocol_stats,
        stats.uploaded_protocol_stats,
        after.uploaded_protocol_stats,
    )
}

/// Whether the throughput was recorded in the history.
pub open spec fn recorded(
    before: ThroughputHistory,
    stats: ThroughputStats,
    after: ThroughputHistory,
) -> bool {
    &&& after.rate_history@ == rates_with(
        before.rate_history@,
        stats.rate,
        HISTORY_LIMIT as int,
    )
    &&& after.peak == stats.peak
    &&& after.total == stats.total
}

/// Returns the latest of the completed pieces.
fn join_latest(existing: &Vec<PieceIndex>, new: &Vec<PieceIndex>) -> (latest: Vec<PieceIndex>)
    ensures
        latest@ == latest_pieces(existing@, new@),
{
    let ghost all = existing@ + new@;
    let mut joined: Vec<PieceIndex> = Vec::new();
    let mut i: usize = 0;
    while i < existing.len()
        invariant
            i <= existing@.len(),
            joined@ == existing@.take(i as int),
        decreases existing@.len() - i,
    {
        joined.push(existing[i]);
        i = i + 1;
        assert(joined@ =~= existing@.take(i as int));
    }
    i = 0;
    assert(joined@ =~= existing@ + new@.take(0));
    while i < new.len()
        invariant
            i <= new@.len(),
            joined@ == existing@ + new@.take(i as int),
        decreases new@.len() - i,
    {
        joined.push(new[i]);
        i = i + 1;
        assert(joined@ =~= existing@ + new@.take(i as int));
    }
    assert(joined@ =~= all);
    if joined.len() <= COMPLETED_LIMIT {
        return joined;
    }
    let overflow: usize = joined.len() - COMPLETED_LIMIT;
    let latest: Vec<PieceIndex> = joined.split_off(overflow);
    assert(latest@ =~= all.skip(overflow as int));
    latest
}

/// Completing pieces in two goes completes as much of a file as completing them in
/// one.
pub proof fn law_completion_adds_up(
    storage: StorageInfo,
    file: FileInfo,
    first: Seq<usize>,
    second: Seq<usize>,
)
    ensures
        bytes_in_pieces(storage, file, first + second) == bytes_in_pieces(storage, file, first)
            + bytes_in_pieces(storage, file, second),
    decreases second.len(),
{
    if second.len() == 0 {
        assert(first + second =~= first);
    } else {
        law_completion_adds_up(storage, file, first, second.drop_last());
        assert((first + second).drop_last() =~= first + second.drop_last());
        assert((first + second).last() == second.last());
    }
}

/// The indices of the first pieces.
pub open spec fn first_pieces(n: nat) -> Seq<usize> {
    Seq::new(n, |i: int| i as usize)
}

proof fn lemma_first_pieces(storage: StorageInfo, file: FileInfo, n: nat)
    requires
        n < storage.piece_count <= usize::MAX,
    ensures
        bytes_in_pieces(storage, file, first_pieces(n)) == bytes_in(
            file,
            0,
            storage.piece_offset(n as int),
        ),
        0 <= storage.piece_offset(n as int),
    decreases n,
{
    assert(0 <= n * storage.piece_len) by (nonlinear_arith)
        requires
            0 <= n,
            0 <= storage.piece_len,
    ;
    if n == 0 {
        assert(storage.piece_offset(0) == 0) by (nonlinear_arith)
            requires
                storage.piece_offset(0) == 0 * storage.piece_len,
        ;
        assert(first_pieces(0).len() == 0);
    } else {
        let before = (n - 1) as nat;
        lemma_first_pieces(storage, file, before);
        assert(first_pieces(n).drop_last() =~= first_pieces(before));
        assert(first_pieces(n).last() == before);
        assert(storage.piece_offset(before as int) + storage.piece_len == storage.piece_offset(
            n as int,
        )) by (nonlinear_arith)
            requires
                storage.piece_offset(before as int) == before * storage.piece_len,
                storage.piece_offset(n as int) == n * storage.piece_len,
                before == n - 1,
        ;
    }
}

/// When all pieces are completed, each file is completely downloaded.
pub proof fn law_all_pieces_complete_all_files(torrent: Torrent, i: int)
    requires
        torrent.wf(),
        0 <= i < torrent.files@.len(),
    ensures
        bytes_in_pieces(
            torrent.storage,
            torrent.files@[i].info,
            first_pieces(torrent.storage.piece_count as nat),
        ) == torrent.files@[i].info.len,
{
    let storage = torrent.storage;
    let file = torrent.files@[i].info;
    let all = storage.structure.files();
    let count = storage.piece_count as nat;
    let last = (count - 1) as nat;
    assert(infos_of(torrent.files@)[i] == file);
    lemma_first_pieces(storage, file, last);
    assert(first_pieces(count).drop_last() =~= first_pieces(last));
    assert(storage.piece_offset(last as int) == storage.piece_len * (storage.piece_count - 1))
        by (nonlinear_arith)
        requires
            storage.piece_offset(last as int) == last * storage.piece_len,
            last == storage.piece_count - 1,
    ;
    lemma_total_len_grows(all, i + 1);
    assert(all.take(i + 1).drop_last() =~= all.take(i));
    assert(file.end() == total_len(all.take(i + 1)));
}

/// Holds the application state.
#[derive(Debug)]
pub struct App {
    pub download_dir: String,
    /// The torrents, by the number of their id.
    pub torrents: BTreeMap<u32, Torrent>,
}

impl App {
    /// Whether the state of each torrent is consistent.
    pub open spec fn wf(&self) -> bool {
        forall|n: u32| #[trigger] self.torrents@.dom().contains(n) ==> self.torrents@[n].wf()
    }

    /// Creates the state of an application without torrents.
    pub fn new(download_dir: String) -> (app: Self)
        ensures
            app.wf(),
            app.download_dir == download_dir,
            app.torrents@ == Map::<u32, Torrent>::empty(),
    {
        App { download_dir, torrents: BTreeMap::new() }
    }

    /// Adds a torrent that was created.
    pub fn create_torrent(&mut self, id: TorrentId, torrent: Torrent)
        requires
            old(self).wf(),
            torrent.wf(),
        ensures
            final(self).wf(),
            final(self).download_dir == old(self).download_dir,
            final(self).torrents@ == old(self).torrents@.insert(id@, torrent),
    {
        self.torrents.insert(id.number(), torrent);
    }

    /// Updates the state of a torrent, if there is one with the id. Returns whether
    /// there is.
    pub fn update_torrent_state(&mut self, torrent_id: TorrentId, stats: TorrentStats) -> (known:
        bool)
        requires
            old(self).wf(),
            old(self).torrents@.dom().contains(torrent_id@) ==> (
            stats.pieces.latest_completed matches Some(pieces)
                ==> old(self).torrents@[torrent_id@].can_complete(pieces@)),
        ensures
            final(self).wf(),
            final(self).download_dir == old(self).download_dir,
            known == old(self).torrents@.dom().contains(torrent_id@),
            final(self).torrents@.dom() == old(self).torrents@.dom(),
            forall|n: u32|
                n != torrent_id@ ==> #[trigger] final(self).torrents@[n] == old(self).torrents@[n],
            known ==> is_updated(
                old(self).torrents@[torrent_id@],
                stats,
                final(self).torrents@[torrent_id@],
            ),
    {
        match self.torrents.remove(&torrent_id.number()) {
            Some(torrent) => {
                let mut torrent: Torrent = torrent;
                torrent.update(stats);
                self.torrents.insert(torrent_id.number(), torrent);
                assert(self.torrents@.dom() =~= old(self).torrents@.dom());
                true
            },
            None => {
                assert(self.torrents@ =~= old(self).torrents@);
                false
            },
        }
    }
}

/// Returns the mode in which a torrent is run: it is seeded if this is asked for,
/// and downloaded otherwise.
pub fn parse_mode(s: &String) -> (mode: Mode)
    ensures
        s@ == "seed"@ ==> mode is Seed,
        s@ != "seed"@ ==> (mode matches Mode::Download { seeds } && seeds@.len() == 0),
{
    if is_text(s, "seed") {
        Mode::Seed
    } else {
        Mode::Download { seeds: Vec::new() }
    }
}

/// What is shown of a peer.
#[derive(Debug)]
pub struct PeerSummary {
    /// The peer's address.
    pub addr: String,
    /// The peer's id, if it is known and is text.
    pub id: Option<String>,
    /// Whether the peer is still being connected to.
    pub is_connecting: bool,
    /// The number of pieces that the peer has.
    pub piece_count: usize,
    /// The share of the pieces that the peer has, in percent.
    pub percent: u16,
    pub is_choked: bool,
    pub is_interested: bool,
    pub is_peer_choked: bool,
    pub is_peer_interested: bool,
}

impl PeerSummary {
    /// The letters that stand for the state of the session.
    pub open spec fn state_text(&self) -> Seq<char> {
        (if self.is_choked {
            "C"@
        } else {
            Seq::empty()
        }) + (if self.is_interested {
            "I"@
        } else {
            Seq::empty()
        }) + (if self.is_peer_choked {
            "c"@
        } else {
            Seq::empty()
        }) + (if self.is_peer_interested {
            "i"@
        } else {
            Seq::empty()
        })
    }

    /// What is shown of the peer's id.
    pub open spec fn id_text(&self) -> Seq<char> {
        match self.id {
            Some(id) => " :: "@ + id@,
            None => if self.is_connecting {
                " :: connecting..."@
            } else {
                Seq::empty()
            },
        }
    }

    /// The line that introduces the peer: its address, its id if it can be shown,
    /// whether it is a seed or how much it has, and the state of the session.
    pub open spec fn header_text(&self, piece_total: usize) -> Seq<char> {
        self.addr@ + self.id_text() + (if self.piece_count == piece_total {
            " :: seed"@
        } else {
            " :: "@ + decimal(self.percent as nat) + "%"@
        }) + (if self.state_text().len() > 0 {
            " :: "@ + self.state_text()
        } else {
            Seq::empty()
        })
    }

    /// Returns the line that introduces the peer.
    pub fn header(&self, piece_total: usize) -> (text: String)
        ensures
            text@ == self.header_text(piece_total),
    {
        // always show the peer's address
        let mut buf: String = self.addr.clone();
        let ghost addr = buf@;
        // peer id: we may not be able to show it if we don't have
        // it yet because peer is still connecting or if it's not
        // valid utf8
        match &self.id {
            Some(id) => {
                buf.append(" :: ");
                buf.append(id.as_str());
                assert(buf@ =~= addr + (" :: "@ + id@));
            },
            None => {
                if self.is_connecting {
                    buf.append(" :: connecting...");
                }
            },
        }
        let ghost introduced = addr + self.id_text();
        assert(buf@ =~= introduced);
        // peer seed/leech state
        if self.piece_count == piece_total {
            buf.append(" :: seed");
        } else {
            buf.append(" :: ");
            push_decimal(&mut buf, self.percent as u64);
            buf.append("%");
            assert(buf@ =~= introduced + (" :: "@ + decimal(self.percent as nat) + "%"@));
        }
        let ghost sided = buf@;
        // peer session state
        let state: String = self.session_state();
        if !is_empty(state.as_str()) {
            buf.append(" :: ");
            buf.append(state.as_str());
            assert(buf@ =~= sided + (" :: "@ + state@));
        } else {
            assert(buf@ =~= sided + Seq::<char>::empty());
        }
        buf
    }

    /// Returns the letters that stand for the state of the session.
    fn session_state(&self) -> (state: String)
        ensures
            state@ == self.state_text(),
    {
        let mut state: String = String::new();
        if self.is_choked {
            state.append("C");
        }
        if self.is_interested {
            state.append("I");
        }
        if self.is_peer_choked {
            state.append("c");
        }
        if self.is_peer_interested {
            state.append("i");
        }
        assert(state@ =~= self.state_text());
        state
    }
}

/// The rates of the latest rounds are kept, the last one at the end: with a rate the
/// history is the one before with that rate added, of which the first is dropped only if
/// there were as many as the limit.
pub proof fn law_history_keeps_the_latest_rates(rates: Seq<u64>, rate: u64, limit: int, i: int)
    requires
        0 < limit,
        rates.len() <= limit,
        0 <= i < rates.len(),
    ensures
        rates.len() < limit ==> rates_with(rates, rate, limit).len() == rates.len() + 1,
        rates.len() == limit ==> rates_with(rates, rate, limit).len() == limit,
        rates_with(rates, rate, limit).last() == rate,
        rates.len() < limit ==> rates_with(rates, rate, limit)[i] == rates[i],
        rates.len() == limit && i > 0 ==> rates_with(rates, rate, limit)[i - 1] == rates[i],
        rates_with(Seq::empty(), rate, limit) == seq![rate],
{
    assert(rates_with(Seq::empty(), rate, limit) =~= seq![rate]);
}

/// Of the completed pieces, the latest hundred are kept, in the order in which they were
/// completed.
pub proof fn law_latest_pieces_are_kept(existing: Seq<usize>, new: Seq<usize>)
    ensures
        existing.len() + new.len() <= 100 ==> latest_pieces(existing, new) == existing + new,
        existing.len() + new.len() > 100 ==> latest_pieces(existing, new).len() == 100,
        existing.len() + new.len() > 100 ==> latest_pieces(existing, new) == (existing
            + new).subrange(
            existing.len() + new.len() - 100,
            (existing.len() + new.len()) as int,
        ),
{
    let all = existing + new;
    assert(all.len() > 100 ==> latest_pieces(existing, new) =~= all.subrange(
        all.len() - 100,
        all.len() as int,
    ));
}

/// A byte of the torrent counts for a file exactly if it is one of the file's, and the
/// bytes of a range are those of its parts.
pub proof fn law_bytes_count_for_their_file(file: FileInfo, start: int, middle: int, end: int)
    requires
        start <= middle <= end,
    ensures
        bytes_in(file, start, start) == 0,
        bytes_in(file, start, start + 1) == if file.torrent_offset <= start < file.torrent_offset
            + file.len {
            1int
        } else {
            0
        },
        bytes_in(file, start, end) == bytes_in(file, start, middle) + bytes_in(file, middle, end),
{
}

/// A completed piece completes the bytes of each file that are in the piece.
pub proof fn law_completed_piece_counts(storage: StorageInfo, file: FileInfo, index: usize)
    requires
        index < storage.piece_count,
    ensures
        bytes_in_pieces(storage, file, Seq::empty()) == 0,
        index + 1 < storage.piece_count ==> bytes_in_pieces(storage, file, seq![index])
            == bytes_in(
            file,
            index * storage.piece_len,
            index * storage.piece_len + storage.piece_len,
        ),
        index + 1 == storage.piece_count ==> bytes_in_pieces(storage, file, seq![index])
            == bytes_in(
            file,
            index * storage.piece_len,
            index * storage.piece_len + storage.last_piece_len,
        ),
{
    let pieces = seq![index];
    assert(pieces.drop_last() =~= Seq::<usize>::empty());
    reveal_with_fuel(bytes_in_pieces, 2);
}

/// An update shows what the statistics say: the pieces that were completed count for
/// their files, the rates are added to the histories, and what does not change during
/// a download stays.
pub proof fn law_update_shows_the_statistics(
    before: Torrent,
    stats: TorrentStats,
    after: Torrent,
    i: int,
)
    requires
        is_updated(before, stats, after),
        0 <= i < before.files@.len(),
    ensures
        after.name == before.name,
        after.info_hash == before.info_hash,
        after.piece_len == before.piece_len,
        after.download_len == before.download_len,
        after.wasted_payload_count == before.wasted_payload_count,
        after.storage == before.storage,
        after.files@.len() == before.files@.len(),
        after.files@[i].info == before.files@[i].info,
        stats.pieces.latest_completed is None ==> after.files@[i].complete
            == before.files@[i].complete,
        stats.pieces.latest_completed matches Some(pieces) ==> after.files@[i].complete
            == before.files@[i].complete + bytes_in_pieces(
            before.storage,
            before.files@[i].info,
            pieces@,
        ),
        after.pieces.total == stats.pieces.total,
        after.pieces.pending == stats.pieces.pending,
        after.pieces.complete == stats.pieces.complete,
        after.run_duration == stats.run_duration,
        after.peer_count == stats.peer_count,
        after.downloaded_payload_stats.rate_history@ == rates_with(
            before.downloaded_payload_stats.rate_history@,
            stats.downloaded_payload_stats.rate,
            100,
        ),
        after.uploaded_payload_stats.rate_history@ == rates_with(
            before.uploaded_payload_stats.rate_history@,
            stats.uploaded_payload_stats.rate,
            100,
        ),
        after.downloaded_protocol_stats.rate_history@ == rates_with(
            before.downloaded_protocol_stats.rate_history@,
            stats.downloaded_protocol_stats.rate,
            100,
        ),
        after.uploaded_protocol_stats.rate_history@ == rates_with(
            before.uploaded_protocol_stats.rate_history@,
            stats.uploaded_protocol_stats.rate,
            100,
        ),
        after.downloaded_payload_stats.peak == stats.downloaded_payload_stats.peak,
        after.uploaded_payload_stats.peak == stats.uploaded_payload_stats.peak,
        after.downloaded_protocol_stats.peak == stats.downloaded_protocol_stats.peak,
        after.uploaded_protocol_stats.peak == stats.uploaded_protocol_stats.peak,
        after.downloaded_payload_stats.total == stats.downloaded_payload_stats.total,
        after.uploaded_payload_stats.total == stats.uploaded_payload_stats.total,
        after.downloaded_protocol_stats.total == stats.downloaded_protocol_stats.total,
        after.uploaded_protocol_stats.total == stats.uploaded_protocol_stats.total,
        before.pieces.latest_completed matches Some(existing) ==> (
        stats.pieces.latest_completed matches Some(new) ==> (
        after.pieces.latest_completed matches Some(latest) && latest@ == latest_pieces(
            existing@,
            new@,
        ))),
        before.pieces.latest_completed is Some && stats.pieces.latest_completed is Some
            <==> after.pieces.latest_completed is Some,
{
}

/// Each of the session's flags is shown by its letter, and nothing is shown if none is
/// set.
pub proof fn law_each_flag_has_its_letter(peer: PeerSummary)
    ensures
        peer.state_text().contains('C') == peer.is_choked,
        peer.state_text().contains('I') == peer.is_interested,
        peer.state_text().contains('c') == peer.is_peer_choked,
        peer.state_text().contains('i') == peer.is_peer_interested,
        peer.state_text().len() == 0 <==> !peer.is_choked && !peer.is_interested
            && !peer.is_peer_choked && !peer.is_peer_interested,
        peer.state_text().len() <= 4,
{
    reveal_strlit("C");
    reveal_strlit("I");
    reveal_strlit("c");
    reveal_strlit("i");
    let text = peer.state_text();
    let a = if peer.is_choked {
        1int
    } else {
        0
    };
    let b = a + if peer.is_interested {
        1int
    } else {
        0
    };
    let c = b + if peer.is_peer_choked {
        1int
    } else {
        0
    };
    if peer.is_choked {
        assert(text[0] == 'C');
    }
    if peer.is_interested {
        assert(text[a] == 'I');
    }
    if peer.is_peer_choked {
        assert(text[b] == 'c');
    }
    if peer.is_peer_interested {
        assert(text[c] == 'i');
    }
}

/// A peer is introduced by its address, and as a seed exactly if it has all pieces.
pub proof fn law_peers_are_introduced_by_their_address(peer: PeerSummary, piece_total: usize)
    ensures
        peer.header_text(piece_total).len() >= peer.addr@.len(),
        peer.header_text(piece_total).take(peer.addr@.len() as int) == peer.addr@,
        peer.id is None && !peer.is_connecting && peer.state_text().len() == 0 ==> {
            &&& peer.piece_count == piece_total ==> peer.header_text(piece_total) == peer.addr@
                + " :: seed"@
            &&& peer.piece_count != piece_total ==> peer.header_text(piece_total) == peer.addr@
                + " :: "@ + decimal(peer.percent as nat) + "%"@
        },
        peer.id matches Some(id) ==> peer.id_text() == " :: "@ + id@,
        peer.id is None && peer.is_connecting ==> peer.id_text() == " :: connecting..."@,
        peer.id is None && !peer.is_connecting ==> peer.id_text().len() == 0,
{
    let text = peer.header_text(piece_total);
    assert(text.take(peer.addr@.len() as int) =~= peer.addr@);
    if peer.id is None && !peer.is_connecting && peer.state_text().len() == 0 {
        if peer.piece_count == piece_total {
            assert(text =~= peer.addr@ + " :: seed"@);
        } else {
            assert(text =~= peer.addr@ + " :: "@ + decimal(peer.percent as nat) + "%"@);
        }
    }
}

/// The hexadecimal text has two digits for each byte, the higher one first, and the bytes
/// can be computed from it.
pub proof fn law_bytes_have_two_hex_digits(bytes: Seq<u8>, i: int)
    requires
        0 <= i < bytes.len(),
    ensures
        ({
            let text = hex_text(bytes);
            let value = |c: char|
                if '0' <= c <= '9' {
                    c as int - 48
                } else {
                    c as int - 97 + 10
                };
            &&& text.len() == 2 * bytes.len()
            &&& ('0' <= text[2 * i] <= '9') || ('a' <= text[2 * i] <= 'f')
            &&& ('0' <= text[2 * i + 1] <= '9') || ('a' <= text[2 * i + 1] <= 'f')
            &&& bytes[i] == 16 * value(text[2 * i]) + value(text[2 * i + 1])
        }),
{
    let text = hex_text(bytes);
    let high = bytes[i] as int / 16;
    let low = bytes[i] as int % 16;
    assert((2 * i) / 2 == i && (2 * i) % 2 == 0);
    assert((2 * i + 1) / 2 == i && (2 * i + 1) % 2 == 1);
    assert(text[2 * i] == hex_digit(high));
    assert(text[2 * i + 1] == hex_digit(low));
    lemma_hex_digit(high);
    lemma_hex_digit(low);
}

proof fn lemma_hex_digit(d: int)
    requires
        0 <= d < 16,
    ensures
        d < 10 ==> hex_digit(d) as int == 48 + d,
        d >= 10 ==> hex_digit(d) as int == 97 + d - 10,
{
    let digits = seq![
        '0',
        '1',
        '2',
        '3',
        '4',
        '5',
        '6',
        '7',
        '8',
        '9',
        'a',
        'b',
        'c',
        'd',
        'e',
        'f',
    ];
    assert(hex_digit(d) == digits[d]);
}

/// A peer is shown by its address, then its id if it is known, whether it is a seed or how
/// much it has, and the flags that are set, in this order.
pub proof fn law_peers_are_shown_in_full(peer: PeerSummary, piece_total: usize, id: String)
    requires
        peer.id == Some(id),
    ensures
        ({
            let progress = if peer.piece_count == piece_total {
                " :: seed"@
            } else {
                " :: "@ + decimal(peer.percent as nat) + "%"@
            };
            let shown = peer.addr@ + " :: "@ + id@ + progress;
            let text = peer.header_text(piece_total);
            &&& peer.state_text().len() == 0 ==> text == shown
            &&& peer.state_text().len() > 0 ==> text == shown + " :: "@ + peer.state_text()
        }),
        peer.is_choked && peer.is_interested && peer.is_peer_choked && peer.is_peer_interested
            ==> peer.state_text() == seq!['C', 'I', 'c', 'i'],
{
    reveal_strlit("C");
    reveal_strlit("I");
    reveal_strlit("c");
    reveal_strlit("i");
    let progress = if peer.piece_count == piece_total {
        " :: seed"@
    } else {
        " :: "@ + decimal(peer.percent as nat) + "%"@
    };
    let shown = peer.addr@ + " :: "@ + id@ + progress;
    let text = peer.header_text(piece_total);
    if peer.state_text().len() == 0 {
        assert(text =~= shown);
    } else {
        assert(text =~= shown + " :: "@ + peer.state_text());
    }
}

} // verus!
