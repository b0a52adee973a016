//! What the peer sessions of a torrent share.

use vstd::prelude::*;

use crate::bitfield::max_bits;
use crate::block::{PeerId, Sha1Hash};
use crate::download::{downloads_wf, Downloads, PieceDownloadView};
use crate::piece_picker::{PickerView, PiecePicker};
use crate::storage_info::StorageInfo;

verus! {

/// Information and state shared by a torrent and its peer sessions.
#[derive(Debug)]
pub struct TorrentContext {
    /// The info hash of the torrent, derived from its metainfo. This is used to
    /// identify the torrent with other peers and trackers.
    pub info_hash: Sha1Hash,
    /// The arbitrary client id, chosen by the user of this library. This is
    /// advertised to peers and trackers.
    pub client_id: PeerId,
    /// A handle to the piece picker, which decides what pieces are downloaded.
    pub piece_picker: PiecePicker,
    /// These are the active piece downloads in which the peer sessions in this
    /// torrent are participating.
    pub downloads: Downloads,
    /// Information about the torrent's files and pieces.
    pub storage: StorageInfo,
}

/// Whether the picker and the downloads are those of a torrent with this storage:
/// each download is of one of its pieces, which is marked as being downloaded.
pub open spec fn shared_wf(
    storage: StorageInfo,
    picker: PickerView,
    downloads: Seq<PieceDownloadView>,
) -> bool {
    &&& storage.wf()
    &&& storage.piece_count <= max_bits()
    &&& picker.wf()
    &&& picker.own.len() == storage.piece_count
    &&& downloads_wf(downloads)
    &&& forall|i: int|
        0 <= i < downloads.len() ==> {
            &&& (#[trigger] downloads[i]).index < storage.piece_count
            &&& downloads[i].len == storage.len_of_piece(downloads[i].index as int)
            &&& picker.pieces[downloads[i].index as int].is_pending
        }
}

impl TorrentContext {
    /// Whether the shared state is consistent.
    pub open spec fn wf(&self) -> bool {
        shared_wf(self.storage, self.piece_picker@, self.downloads@)
    }

    /// Whether what identifies the torrent and its storage are the same.
    pub open spec fn same_torrent(&self, other: &TorrentContext) -> bool {
        &&& self.info_hash == other.info_hash
        &&& self.client_id == other.client_id
        &&& self.storage == other.storage
    }
}

} // verus!
