//! The torrent metainfo: what a torrent file says about a torrent.

use vstd::prelude::*;

use crate::block::Sha1Hash;
use crate::hash::sha1;
use crate::storage_info::{contiguous, total_len, FileInfo, FsStructure};
use crate::text::{
    is_absolute, is_absolute_path, is_empty, is_text, join_components, joined_all, texts,
};

pub mod raw;

verus! {

/// What can be wrong with a metainfo.
#[derive(Debug)]
pub enum MetainfoError {
    /// Holds the description of a bencode serialization or deserialization
    /// related error.
    Bencode(String),
    /// The torrent metainfo is not valid.
    InvalidMetainfo,
    /// The chain of piece hashes in the torrent metainfo file was not
    /// a multiple of 20, or is otherwise invalid and thus the torrent could not
    /// be started.
    InvalidPieces,
    /// The tracker URL is not a valid URL.
    InvalidTrackerUrl,
}

impl MetainfoError {
    /// Returns the description of the error.
    pub fn message(&self) -> (text: String)
        ensures
            text@ == match self {
                MetainfoError::Bencode(e) => e@,
                MetainfoError::InvalidMetainfo => "invalid metainfo"@,
                MetainfoError::InvalidPieces => "invalid pieces"@,
                MetainfoError::InvalidTrackerUrl => "invalid tracker URL"@,
            },
    {
        match self {
            MetainfoError::Bencode(e) => e.clone(),
            MetainfoError::InvalidMetainfo => "invalid metainfo".to_owned(),
            MetainfoError::InvalidPieces => "invalid pieces".to_owned(),
            MetainfoError::InvalidTrackerUrl => "invalid tracker URL".to_owned(),
        }
    }
}

/// A URL that was parsed: its scheme and its normalised text.
#[derive(Debug, PartialEq)]
pub struct Url {
    pub scheme: String,
    pub text: String,
}

/// The scheme and the normalised text of a URL.
#[verifier::ext_equal]
pub struct UrlView {
    pub scheme: Seq<char>,
    pub text: Seq<char>,
}

impl View for Url {
    type V = UrlView;

    open spec fn view(&self) -> UrlView {
        UrlView { scheme: self.scheme@, text: self.text@ }
    }
}

impl Clone for Url {
    fn clone(&self) -> (url: Self)
        ensures
            url == *self,
    {
        Url { scheme: self.scheme.clone(), text: self.text.clone() }
    }
}

/// The scheme and the normalised text of the URL that the text is, or nothing if
/// it is not a URL.
pub uninterp spec fn parsed_url(text: Seq<char>) -> Option<(Seq<char>, Seq<char>)>;

/// The `url` function `Url::parse` reads the text as a URL, of which `Url::scheme`
/// and `Url::as_str` give the scheme and the normalised text. Whether the text is
/// a URL, and which, depends on the text alone.
#[verifier::external_body]
fn url_parse(text: &str) -> (url: Option<Url>)
    ensures
        parsed_url(text@) == match url {
            Some(url) => Some((url.scheme@, url.text@)),
            None => None,
        },
{
    match url::Url::parse(text) {
        Ok(url) => Some(
            Url { scheme: url.scheme().to_string(), text: url.as_str().to_string() },
        ),
        Err(_) => None,
    }
}

/// Whether a tracker with the URL's scheme is one that we can announce to. Other
/// trackers, such as those over UDP, are not supported.
pub open spec fn is_http(scheme: Seq<char>) -> bool {
    scheme == "http"@ || scheme == "https"@
}

/// The trackers after another tracker's URL was parsed: it is added if it can be
/// announced to, and the text must be a URL.
pub open spec fn with_tracker(
    trackers: Seq<UrlView>,
    parsed: Option<(Seq<char>, Seq<char>)>,
) -> Option<Seq<UrlView>> {
    match parsed {
        None => None,
        Some((scheme, text)) => if is_http(scheme) {
            Some(trackers.push(UrlView { scheme, text }))
        } else {
            Some(trackers)
        },
    }
}

/// The trackers of a tier, or nothing if one of the texts is not a URL.
pub open spec fn tier_trackers(tier: Seq<Seq<char>>) -> Option<Seq<UrlView>>
    decreases tier.len(),
{
    if tier.len() == 0 {
        Some(Seq::empty())
    } else {
        match tier_trackers(tier.drop_last()) {
            None => None,
            Some(trackers) => with_tracker(trackers, parsed_url(tier.last())),
        }
    }
}

/// The texts of all tiers, one tier after the other.
pub open spec fn all_tiers(tiers: Seq<Seq<Seq<char>>>) -> Seq<Seq<char>>
    decreases tiers.len(),
{
    if tiers.len() == 0 {
        Seq::empty()
    } else {
        all_tiers(tiers.drop_last()) + tiers.last()
    }
}

/// The views of the URLs.
pub open spec fn url_views(urls: Seq<Url>) -> Seq<UrlView> {
    urls.map_values(|url: Url| url@)
}

/// Adds the tracker whose URL was parsed to the trackers, if it is one that we can
/// announce to.
pub fn add_tracker(trackers: &mut Vec<Url>, url: Option<Url>) -> (r: Result<(), MetainfoError>)
    ensures
        match url {
            Some(url) => {
                &&& r is Ok
                &&& final(trackers)@ == if is_http(url.scheme@) {
                    old(trackers)@.push(url)
                } else {
                    old(trackers)@
                }
            },
            None => {
                &&& r == Err::<(), MetainfoError>(MetainfoError::InvalidTrackerUrl)
                &&& final(trackers)@ == old(trackers)@
            },
        },
{
    match url {
        Some(url) => {
            // the tracker may be over UDP, which we don't support (yet)
            if is_text(&url.scheme, "http") || is_text(&url.scheme, "https") {
                trackers.push(url);
            }
            Ok(())
        },
        None => Err(MetainfoError::InvalidTrackerUrl),
    }
}

/// The parsed and validated torrent metainfo file, containing necessary
/// arguments for starting a torrent.
#[derive(Debug)]
pub struct Metainfo {
    /// The name of the torrent, which is usually used to form the download
    /// path.
    pub name: String,
    /// This hash is used to identify a torrent with trackers and peers.
    pub info_hash: Sha1Hash,
    /// The concatenation of the 20 byte SHA-1 hash of each piece in torrent.
    /// This is used to verify the data sent to us by peers.
    pub pieces: Vec<u8>,
    /// The nominal lengths of a piece, that is, the length of all but
    /// potentially the last piece, which may be smaller.
    pub piece_len: u32,
    /// The paths and lengths of the downloaded files.
    pub structure: FsStructure,
    /// The trackers that we can announce to.
    /// The tier information is not currently present in this field as
    /// cratetorrent doesn't use it. In the future it may be added.
    pub trackers: Vec<Url>,
}

/// A file's path, length and offset.
#[verifier::ext_equal]
pub struct FileView {
    pub path: Seq<char>,
    pub len: int,
    pub torrent_offset: int,
}

/// The paths, lengths and offsets of the files.
pub open spec fn file_views(files: Seq<FileInfo>) -> Seq<FileView> {
    files.map_values(
        |file: FileInfo|
            FileView {
                path: file.path@,
                len: file.len as int,
                torrent_offset: file.torrent_offset as int,
            },
    )
}

/// The sum of the lengths of the files as given in the metainfo file.
pub open spec fn raw_total(files: Seq<raw::File>) -> int
    decreases files.len(),
{
    if files.len() == 0 {
        0
    } else {
        raw_total(files.drop_last()) + files.last().len
    }
}

/// The path that is given for the file.
pub open spec fn raw_path(file: raw::File) -> Seq<char> {
    joined_all(texts(file.path@))
}

/// Whether the file is not empty and its path is relative and not empty.
pub open spec fn valid_file(file: raw::File) -> bool {
    file.len > 0 && raw_path(file).len() > 0 && !is_absolute_path(raw_path(file))
}

/// Whether all files are valid.
pub open spec fn valid_files(files: Seq<raw::File>) -> bool {
    forall|i: int| 0 <= i < files.len() ==> valid_file(#[trigger] files[i])
}

/// Whether the offsets of all files up to the first invalid one are
/// representable.
pub open spec fn offsets_fit(files: Seq<raw::File>) -> bool {
    forall|n: int|
        0 <= n <= files.len() && valid_files(files.take(n)) ==> raw_total(#[trigger] files.take(n))
            <= u64::MAX
}

/// Whether the offsets of the files are summed up: the hashes of the pieces are
/// whole, and there is not a single file as well.
pub open spec fn sums_offsets(info: raw::Info) -> bool {
    info.pieces@.len() % 20 == 0 && info.len is None
}

/// Whether the metainfo describes either one non-empty file or a non-empty list of
/// valid files, and not both.
pub open spec fn valid_structure(info: raw::Info) -> bool {
    match (info.len, info.files) {
        (Some(len), None) => len > 0,
        (None, Some(files)) => files@.len() > 0 && valid_files(files@),
        _ => false,
    }
}

/// The files that a valid metainfo describes.
pub open spec fn described_files(info: raw::Info) -> Seq<FileView> {
    match (info.len, info.files) {
        (Some(len), _) => seq![
            FileView { path: info.name@, len: len as int, torrent_offset: 0 },
        ],
        (None, Some(files)) => Seq::new(
            files@.len(),
            |i: int|
                FileView {
                    path: raw_path(files@[i]),
                    len: files@[i].len as int,
                    torrent_offset: raw_total(files@.take(i)),
                },
        ),
        (None, None) => Seq::empty(),
    }
}

/// The texts of the tracker URLs that are used: those of the announce list, or if
/// it is empty, the single announce URL.
pub open spec fn tracker_texts(metainfo: raw::Metainfo) -> Seq<Seq<char>> {
    if metainfo.announce_list@.len() > 0 {
        all_tiers(metainfo.announce_list@.map_values(|tier: Vec<String>| texts(tier@)))
    } else {
        match metainfo.announce {
            Some(tracker) => seq![tracker@],
            None => Seq::empty(),
        }
    }
}

impl Metainfo {
    /// Whether the metainfo is semantically valid.
    pub open spec fn wf(&self) -> bool {
        &&& self.pieces@.len() % 20 == 0
        &&& self.structure.wf()
        &&& self.structure.files().len() > 0
        &&& contiguous(self.structure.files())
        &&& forall|i: int|
            0 <= i < self.structure.files().len() ==> (
            #[trigger] self.structure.files()[i]).len > 0
        &&& forall|i: int|
            0 <= i < self.trackers@.len() ==> is_http((#[trigger] self.trackers@[i]).scheme@)
    }

    /// Whether the metainfo is what the decoded file says, with the hash of the
    /// encoded info.
    pub open spec fn maps(&self, metainfo: raw::Metainfo, encoded_info: Seq<u8>) -> bool {
        &&& self.name@ == metainfo.info.name@
        &&& self.info_hash@ == sha1(encoded_info)
        &&& self.pieces@ == metainfo.info.pieces@
        &&& self.piece_len == metainfo.info.piece_len
        &&& self.structure is File == metainfo.info.len is Some
        &&& file_views(self.structure.files()) == described_files(metainfo.info)
        &&& tier_trackers(tracker_texts(metainfo)) == Some(url_views(self.trackers@))
    }

    /// Creates a new [`Metainfo`] instance from the bytes of a metainfo file, or
    /// aborts with an error.
    ///
    /// If the encoding itself is correct, the constructor may still fail if the
    /// metadata is not semantically correct (e.g. if the length of the `pieces`
    /// field is not a multiple of 20, or no valid files are encoded, etc).
    ///
    /// # Arguments
    ///
    /// * `decoded` - What decoding the bytes gave: the decoded metainfo or the
    ///         description of the error.
    /// * `encoded_info` - What encoding the decoded metainfo's `info` field
    ///         gave: the encoding or the description of the error.
    pub fn from_bytes(
        decoded: Result<raw::Metainfo, String>,
        encoded_info: Result<Vec<u8>, String>,
    ) -> (r: Result<Metainfo, MetainfoError>)
        requires
            decoded matches Ok(metainfo) ==> sums_offsets(metainfo.info) ==> (
            metainfo.info.files matches Some(files) ==> offsets_fit(files@)),
        ensures
            match decoded {
                Err(e) => r == Err::<Metainfo, MetainfoError>(MetainfoError::Bencode(e)),
                Ok(metainfo) => if metainfo.info.pieces@.len() % 20 != 0 {
                    r == Err::<Metainfo, MetainfoError>(MetainfoError::InvalidPieces)
                } else if !valid_structure(metainfo.info) {
                    r == Err::<Metainfo, MetainfoError>(MetainfoError::InvalidMetainfo)
                } else if tier_trackers(tracker_texts(metainfo)) is None {
                    r == Err::<Metainfo, MetainfoError>(MetainfoError::InvalidTrackerUrl)
                } else {
                    match encoded_info {
                        Err(e) => r == Err::<Metainfo, MetainfoError>(MetainfoError::Bencode(e)),
                        Ok(encoded_info) => {
                            &&& r matches Ok(valid)
                            &&& valid.wf()
                            &&& valid.maps(metainfo, encoded_info@)
                        },
                    }
                },
            },
    {
        let metainfo: raw::Metainfo = match decoded {
            Ok(metainfo) => metainfo,
            Err(e) => return Err(MetainfoError::Bencode(e)),
        };
        // the pieces field is a concatenation of 20 byte SHA-1 hashes, so it
        // must be a multiple of 20
        if metainfo.info.pieces.len() % 20 != 0 {
            return Err(MetainfoError::InvalidPieces);
        }
        // verify download structure
        let structure: FsStructure = match verify_structure(&metainfo.info) {
            Ok(structure) => structure,
            Err(e) => return Err(e),
        };
        let trackers: Vec<Url> = match collect_trackers(&metainfo) {
            Ok(trackers) => trackers,
            Err(e) => return Err(e),
        };
        // create info hash as a last step
        let info_hash: Sha1Hash = match encoded_info {
            Ok(encoded_info) => raw::Metainfo::create_info_hash(encoded_info.as_slice()),
            Err(e) => return Err(MetainfoError::Bencode(e)),
        };
        Ok(
            Metainfo {
                name: metainfo.info.name,
                info_hash,
                pieces: metainfo.info.pieces,
                piece_len: metainfo.info.piece_len,
                structure,
                trackers,
            },
        )
    }

    /// The sum of the lengths of all files.
    pub open spec fn download_len(&self) -> int {
        total_len(self.structure.files())
    }

    /// Whether the torrent has pieces, and enough bytes for all but the last of
    /// them to have the nominal length.
    pub open spec fn has_last_piece(&self) -> bool {
        &&& self.pieces@.len() >= 20
        &&& self.piece_len * (self.pieces@.len() / 20 - 1) <= self.download_len() <= u64::MAX
    }

    /// Tells whether the torrent has pieces, and enough bytes for all but the last
    /// of them to have the nominal length.
    pub fn check_last_piece(&self) -> (r: bool)
        requires
            self.structure.wf(),
        ensures
            r == self.has_last_piece(),
    {
        let count: usize = self.piece_count();
        if count == 0 {
            return false;
        }
        let len: u64 = self.structure.download_len();
        let full: u64 = (count - 1) as u64;
        assert(self.piece_len * full <= u32::MAX * u64::MAX) by (nonlinear_arith)
            requires
                self.piece_len <= u32::MAX,
                full <= u64::MAX,
        ;
        self.piece_len as u128 * full as u128 <= len as u128
    }

    /// Returns the number of pieces in this torrent.
    pub fn piece_count(&self) -> (count: usize)
        ensures
            count == self.pieces@.len() / 20,
    {
        self.pieces.len() / 20
    }
}

/// Tells whether the offsets of all files up to the first invalid one are
/// representable.
pub fn can_sum_offsets(files: &Vec<raw::File>) -> (r: bool)
    ensures
        r == offsets_fit(files@),
{
    let mut total: u64 = 0;
    let mut i: usize = 0;
    assert(files@.take(0) =~= Seq::<raw::File>::empty());
    while i < files.len()
        invariant
            i <= files@.len(),
            total == raw_total(files@.take(i as int)),
            valid_files(files@.take(i as int)),
            forall|n: int|
                0 <= n <= i && valid_files(files@.take(n)) ==> raw_total(#[trigger] files@.take(n))
                    <= u64::MAX,
        decreases files@.len() - i,
    {
        let ghost next = files@.take(i + 1);
        proof {
            assert(next.drop_last() =~= files@.take(i as int));
            assert(next.last() == files@[i as int]);
        }
        let path: String = join_components(&files[i].path);
        if files[i].len == 0 || is_empty(path.as_str()) || is_absolute(path.as_str()) {
            proof {
                assert(!valid_file(files@[i as int]));
                assert forall|n: int|
                    0 <= n <= files@.len() && valid_files(files@.take(n)) implies raw_total(
                    #[trigger] files@.take(n),
                ) <= u64::MAX by {
                    if n > i {
                        assert(files@.take(n)[i as int] == files@[i as int]);
                    }
                }
            }
            return true;
        }
        assert(valid_files(next)) by {
            assert forall|k: int| 0 <= k < next.len() implies valid_file(#[trigger] next[k]) by {
                if k < i {
                    assert(files@.take(i as int)[k] == next[k]);
                }
            }
        }
        if files[i].len > u64::MAX - total {
            assert(raw_total(next) > u64::MAX);
            return false;
        }
        total = total + files[i].len;
        i = i + 1;
    }
    true
}

/// Verifies the download structure of the metainfo and maps it to our internal
/// representation.
pub fn verify_structure(info: &raw::Info) -> (r: Result<FsStructure, MetainfoError>)
    requires
        info.len is None ==> (info.files matches Some(files) ==> offsets_fit(files@)),
    ensures
        valid_structure(*info) ==> match r {
            Ok(structure) => {
                &&& structure.wf()
                &&& structure is File == info.len is Some
                &&& file_views(structure.files()) == described_files(*info)
                &&& structure.files().len() > 0
                &&& contiguous(structure.files())
                &&& forall|i: int|
                    0 <= i < structure.files().len() ==> (#[trigger] structure.files()[i]).len > 0
            },
            Err(_) => false,
        },
        !valid_structure(*info) ==> r == Err::<FsStructure, MetainfoError>(
            MetainfoError::InvalidMetainfo,
        ),
{
    match info.len {
        Some(len) => {
            // the metainfo cannot contain both `length` and `files`
            if info.files.is_some() {
                return Err(MetainfoError::InvalidMetainfo);
            }
            if len == 0 {
                return Err(MetainfoError::InvalidMetainfo);
            }
            let file = FileInfo { path: info.name.clone(), len, torrent_offset: 0 };
            let structure = FsStructure::File(file);
            proof {
                let files = structure.files();
                reveal_with_fuel(total_len, 2);
                assert(files.drop_last() =~= Seq::<FileInfo>::empty());
                assert(files.take(0) =~= Seq::<FileInfo>::empty());
                assert(file_views(files) =~= described_files(*info));
            }
            Ok(structure)
        },
        None => match &info.files {
            Some(files) => {
                // the files must not be empty
                if files.len() == 0 {
                    return Err(MetainfoError::InvalidMetainfo);
                }
                match map_files(files) {
                    Ok(file_infos) => {
                        assert(file_views(file_infos@) =~= described_files(*info));
                        Ok(FsStructure::Archive { files: file_infos })
                    },
                    Err(e) => Err(e),
                }
            },
            None => Err(MetainfoError::InvalidMetainfo),
        },
    }
}

/// Maps the file information entries to our internal representation and sums up
/// the file offsets in the torrent.
fn map_files(files: &Vec<raw::File>) -> (r: Result<Vec<FileInfo>, MetainfoError>)
    requires
        offsets_fit(files@),
    ensures
        valid_files(files@) ==> match r {
            Ok(infos) => {
                &&& infos@.len() == files@.len()
                &&& forall|i: int|
                    0 <= i < files@.len() ==> {
                        &&& (#[trigger] infos@[i]).wf()
                        &&& infos@[i].path@ == raw_path(files@[i])
                        &&& infos@[i].len == files@[i].len
                        &&& infos@[i].len > 0
                        &&& infos@[i].torrent_offset == raw_total(files@.take(i))
                    }
                &&& contiguous(infos@)
                &&& total_len(infos@) <= u64::MAX
            },
            Err(_) => false,
        },
        !valid_files(files@) ==> r == Err::<Vec<FileInfo>, MetainfoError>(
            MetainfoError::InvalidMetainfo,
        ),
{
    let mut infos: Vec<FileInfo> = Vec::new();
    let mut torrent_offset: u64 = 0;
    let mut i: usize = 0;
    assert(files@.take(0) =~= Seq::<raw::File>::empty());
    while i < files.len()
        invariant
            i <= files@.len(),
            offsets_fit(files@),
            infos@.len() == i,
            valid_files(files@.take(i as int)),
            torrent_offset == raw_total(files@.take(i as int)),
            total_len(infos@) == torrent_offset,
            contiguous(infos@),
            forall|k: int|
                0 <= k < i ==> {
                    &&& (#[trigger] infos@[k]).wf()
                    &&& infos@[k].path@ == raw_path(files@[k])
                    &&& infos@[k].len == files@[k].len
                    &&& infos@[k].len > 0
                    &&& infos@[k].torrent_offset == raw_total(files@.take(k))
                },
        decreases files@.len() - i,
    {
        let ghost next = files@.take(i + 1);
        let ghost before = infos@;
        proof {
            assert(next.drop_last() =~= files@.take(i as int));
            assert(next.last() == files@[i as int]);
        }
        // verify that the file length is non-zero
        if files[i].len == 0 {
            assert(!valid_file(files@[i as int]));
            return Err(MetainfoError::InvalidMetainfo);
        }
        // verify that the path is neither empty nor absolute
        let path: String = join_components(&files[i].path);
        if is_empty(path.as_str()) || is_absolute(path.as_str()) {
            assert(!valid_file(files@[i as int]));
            return Err(MetainfoError::InvalidMetainfo);
        }
        assert(valid_files(next)) by {
            assert forall|k: int| 0 <= k < next.len() implies valid_file(#[trigger] next[k]) by {
                if k < i {
                    assert(files@.take(i as int)[k] == next[k]);
                }
            }
        }
        assert(raw_total(next) <= u64::MAX);
        // file is now verified, we can collect it
        infos.push(FileInfo { path, len: files[i].len, torrent_offset });
        proof {
            assert(infos@.drop_last() =~= before);
            assert(infos@.take(i as int) =~= before);
            assert forall|k: int| 0 <= k < infos@.len() implies (
            #[trigger] infos@[k]).torrent_offset == total_len(infos@.take(k)) by {
                if k < i {
                    assert(infos@.take(k) =~= before.take(k));
                    assert(infos@[k] == before[k]);
                }
            }
        }
        // advance offset for next file
        torrent_offset = torrent_offset + files[i].len;
        i = i + 1;
    }
    assert(files@.take(i as int) =~= files@);
    Ok(infos)
}

/// Collects the trackers that we can announce to.
fn collect_trackers(metainfo: &raw::Metainfo) -> (r: Result<Vec<Url>, MetainfoError>)
    ensures
        match tier_trackers(tracker_texts(*metainfo)) {
            Some(trackers) => match r {
                Ok(urls) => {
                    &&& url_views(urls@) == trackers
                    &&& forall|i: int|
                        0 <= i < urls@.len() ==> is_http((#[trigger] urls@[i]).scheme@)
                },
                Err(_) => false,
            },
            None => r == Err::<Vec<Url>, MetainfoError>(MetainfoError::InvalidTrackerUrl),
        },
{
    let mut trackers: Vec<Url> = Vec::new();
    let ghost all = tracker_texts(*metainfo);
    let list: &Vec<Vec<String>> = &metainfo.announce_list;
    if list.len() > 0 {
        let ghost tiers = list@.map_values(|tier: Vec<String>| texts(tier@));
        let mut i: usize = 0;
        proof {
            assert(tiers.take(0) =~= Seq::<Seq<Seq<char>>>::empty());
            assert(url_views(trackers@) =~= Seq::<UrlView>::empty());
        }
        while i < list.len()
            invariant
                i <= list@.len(),
                tiers == list@.map_values(|tier: Vec<String>| texts(tier@)),
                all == all_tiers(tiers),
                all == tracker_texts(*metainfo),
                tier_trackers(all_tiers(tiers.take(i as int))) == Some(url_views(trackers@)),
                forall|k: int|
                    0 <= k < trackers@.len() ==> is_http((#[trigger] trackers@[k]).scheme@),
            decreases list@.len() - i,
        {
            let tier: &Vec<String> = &list[i];
            let ghost done = all_tiers(tiers.take(i as int));
            let ghost here = texts(tier@);
            let mut j: usize = 0;
            proof {
                assert(tiers.take(i + 1).drop_last() =~= tiers.take(i as int));
                assert(tiers.take(i + 1).last() == here);
                assert(done + here.take(0) =~= done);
            }
            while j < tier.len()
                invariant
                    j <= tier@.len(),
                    i < tiers.len(),
                    here == texts(tier@),
                    all == all_tiers(tiers),
                    all == tracker_texts(*metainfo),
                    done == all_tiers(tiers.take(i as int)),
                    all_tiers(tiers.take(i + 1)) == done + here,
                    tier_trackers(done + here.take(j as int)) == Some(url_views(trackers@)),
                    forall|k: int|
                        0 <= k < trackers@.len() ==> is_http((#[trigger] trackers@[k]).scheme@),
                decreases tier@.len() - j,
            {
                let ghost next = done + here.take(j + 1);
                let ghost before = trackers@;
                proof {
                    assert(next.drop_last() =~= done + here.take(j as int));
                    assert(next.last() == tier@[j as int]@);
                }
                let url: Option<Url> = url_parse(tier[j].as_str());
                match add_tracker(&mut trackers, url) {
                    Ok(()) => {},
                    Err(e) => {
                        proof {
                            assert(tier_trackers(next) is None);
                            lemma_bad_url_stops(done + here, (done.len() + j + 1) as int);
                            assert((done + here).take((done.len() + j + 1) as int) =~= next);
                            lemma_tiers_prefix(tiers, i + 1);
                            lemma_bad_url_stops(all, (done + here).len() as int);
                        }
                        return Err(e);
                    },
                }
                proof {
                    assert(url_views(before.push(url->0)) =~= url_views(before).push(url->0@));
                    assert(tier_trackers(next) == Some(url_views(trackers@)));
                }
                j = j + 1;
            }
            proof {
                assert(here.take(j as int) =~= here);
            }
            i = i + 1;
        }
        assert(tiers.take(i as int) =~= tiers);
    } else {
        proof {
            assert(url_views(trackers@) =~= Seq::<UrlView>::empty());
        }
        match &metainfo.announce {
            Some(tracker) => {
                let url: Option<Url> = url_parse(tracker.as_str());
                proof {
                    assert(all.drop_last() =~= Seq::<Seq<char>>::empty());
                    assert(tier_trackers(all.drop_last()) == Some(Seq::<UrlView>::empty()));
                    if url is Some {
                        assert(url_views(seq![url->0]) =~= seq![url->0@]);
                    }
                }
                match add_tracker(&mut trackers, url) {
                    Ok(()) => {},
                    Err(e) => return Err(e),
                }
                proof {
                    assert(Seq::<Url>::empty().push(url->0) =~= seq![url->0]);
                    assert(Seq::<UrlView>::empty().push(url->0@) =~= seq![url->0@]);
                }
            },
            None => {},
        }
    }
    Ok(trackers)
}

/// If a prefix holds a text that is not a URL, so does the whole.
proof fn lemma_bad_url_stops(all: Seq<Seq<char>>, n: int)
    requires
        0 <= n <= all.len(),
        tier_trackers(all.take(n)) is None,
    ensures
        tier_trackers(all) is None,
    decreases all.len(),
{
    if n < all.len() {
        assert(all.drop_last().take(n) =~= all.take(n));
        lemma_bad_url_stops(all.drop_last(), n);
    } else {
        assert(all.take(n) =~= all);
    }
}

/// The texts of the first tiers are the first of all texts.
proof fn lemma_tiers_prefix(tiers: Seq<Seq<Seq<char>>>, n: int)
    requires
        0 <= n <= tiers.len(),
    ensures
        all_tiers(tiers.take(n)).len() <= all_tiers(tiers).len(),
        all_tiers(tiers).take(all_tiers(tiers.take(n)).len() as int) == all_tiers(tiers.take(n)),
    decreases tiers.len(),
{
    if n < tiers.len() {
        lemma_tiers_prefix(tiers.drop_last(), n);
        assert(tiers.drop_last().take(n) =~= tiers.take(n));
        let len = all_tiers(tiers.take(n)).len() as int;
        assert(all_tiers(tiers).take(len) =~= all_tiers(tiers.drop_last()).take(len));
    } else {
        assert(tiers.take(n) =~= tiers);
        assert(all_tiers(tiers).take(all_tiers(tiers).len() as int) =~= all_tiers(tiers));
    }
}

/// A torrent of several files is valid if there is at least one file, and each of them
/// has a length and a path that is neither empty nor absolute. If there is no file, or
/// any of them lacks that, it is not.
pub proof fn law_any_list_of_good_files_is_valid(info: raw::Info, files: Vec<raw::File>)
    requires
        info.len is None,
        info.files == Some(files),
    ensures
        valid_structure(info) <==> files@.len() >= 1 && forall|i: int|
            0 <= i < files@.len() ==> {
                let path = joined_all(texts((#[trigger] files@[i]).path@));
                files@[i].len >= 1 && path.len() >= 1 && path[0] != '/'
            },
{
    if valid_structure(info) {
        assert forall|i: int| 0 <= i < files@.len() implies ({
            let path = joined_all(texts((#[trigger] files@[i]).path@));
            files@[i].len >= 1 && path.len() >= 1 && path[0] != '/'
        }) by {
            assert(valid_file(files@[i]));
        }
    }
}

/// A torrent of a single file is valid if the file has a length and no list of files is
/// given as well. Without either it is not.
pub proof fn law_single_file_needs_a_length(info: raw::Info)
    ensures
        info.len is Some && info.files is None ==> valid_structure(info) == (info.len->0 >= 1),
        info.len is Some && info.files is Some ==> !valid_structure(info),
        info.len is None && info.files is None ==> !valid_structure(info),
{
}

/// A file whose path has one component is valid if the component is neither empty nor
/// begins at the root, and the path of two such components is the first, a separator and
/// the second.
pub proof fn law_paths_are_made_of_components(file: raw::File)
    ensures
        file.path@.len() == 0 ==> !valid_file(file),
        file.len == 0 ==> !valid_file(file),
        file.path@.len() == 1 ==> raw_path(file) == file.path@[0]@ && valid_file(file) == (file.len
            > 0 && file.path@[0]@.len() > 0 && file.path@[0]@[0] != '/'),
        file.path@.len() == 2 && file.path@[0]@.len() > 0 && file.path@[0]@.last() != '/'
            && file.path@[1]@.len() > 0 && file.path@[1]@[0] != '/' ==> raw_path(file)
            == file.path@[0]@.push('/') + file.path@[1]@,
{
    let parts = texts(file.path@);
    reveal_with_fuel(joined_all, 3);
    if parts.len() == 1 {
        assert(parts.drop_last() =~= Seq::<Seq<char>>::empty());
        assert(Seq::<char>::empty() + parts[0] =~= parts[0]);
        assert(raw_path(file) == parts[0]);
    }
    if parts.len() == 2 {
        assert(parts.drop_last().drop_last() =~= Seq::<Seq<char>>::empty());
        assert(Seq::<char>::empty() + parts[0] =~= parts[0]);
    }
}

/// The files of a valid torrent are those that are listed, in that order, and each one
/// begins where the one before it ends, the first at the start.
pub proof fn law_listed_files_follow_each_other(info: raw::Info, files: Vec<raw::File>, i: int)
    requires
        info.len is None,
        info.files == Some(files),
        0 <= i < files@.len(),
    ensures
        ({
            let described = described_files(info);
            &&& described.len() == files@.len()
            &&& described[i].len == files@[i].len
            &&& described[i].path == joined_all(texts(files@[i].path@))
            &&& described[0].torrent_offset == 0
            &&& i + 1 < files@.len() ==> described[i + 1].torrent_offset
                == described[i].torrent_offset + files@[i].len
        }),
{
    assert(files@.take(0) =~= Seq::<raw::File>::empty());
    if i + 1 < files@.len() {
        assert(files@.take(i + 1).drop_last() =~= files@.take(i));
        assert(files@.take(i + 1).last() == files@[i]);
    }
}

/// A single file has the torrent's name and the given length.
pub proof fn law_single_file_has_the_name(info: raw::Info, len: u64)
    requires
        info.len == Some(len),
    ensures
        described_files(info).len() == 1,
        described_files(info)[0].path == info.name@,
        described_files(info)[0].len == len,
        described_files(info)[0].torrent_offset == 0,
{
}

/// The trackers of a list are those of its parts, one after the other. A text that is
/// not a URL makes the whole list invalid, an HTTP tracker is used, and any other
/// tracker is left out.
pub proof fn law_http_trackers_are_used(tier: Seq<Seq<char>>, text: Seq<char>)
    ensures
        tier_trackers(Seq::empty()) == Some(Seq::<UrlView>::empty()),
        parsed_url(text) is None ==> tier_trackers(tier.push(text)) is None,
        tier_trackers(tier) is None ==> tier_trackers(tier.push(text)) is None,
        tier_trackers(tier) matches Some(trackers) ==> (parsed_url(text) matches Some((
            scheme,
            normalised,
        )) ==> {
            &&& scheme == "http"@ || scheme == "https"@ ==> tier_trackers(tier.push(text)) == Some(
                trackers.push(UrlView { scheme, text: normalised }),
            )
            &&& scheme != "http"@ && scheme != "https"@ ==> tier_trackers(tier.push(text)) == Some(
                trackers,
            )
        }),
{
    assert(tier.push(text).drop_last() =~= tier);
}

/// The trackers of all tiers are used, one tier after the other. Only if there is no
/// tier, the single announce URL is.
pub proof fn law_announce_list_takes_precedence(
    metainfo: raw::Metainfo,
    tiers: Seq<Seq<Seq<char>>>,
    tier: Seq<Seq<char>>,
)
    ensures
        metainfo.announce_list@.len() == 0 && metainfo.announce is None ==> tracker_texts(
            metainfo,
        ).len() == 0,
        metainfo.announce_list@.len() == 0 ==> (metainfo.announce matches Some(tracker)
            ==> tracker_texts(metainfo) == seq![tracker@]),
        metainfo.announce_list@.len() > 0 ==> tracker_texts(metainfo) == all_tiers(
            metainfo.announce_list@.map_values(|tier: Vec<String>| texts(tier@)),
        ),
        all_tiers(Seq::empty()) == Seq::<Seq<char>>::empty(),
        all_tiers(tiers.push(tier)) == all_tiers(tiers) + tier,
{
    assert(tiers.push(tier).drop_last() =~= tiers);
}

/// The offsets of files can be summed up if their lengths together are representable.
pub proof fn law_short_files_can_be_summed_up(files: Seq<raw::File>)
    requires
        raw_total(files) <= u64::MAX,
    ensures
        offsets_fit(files),
{
    assert forall|n: int| 0 <= n <= files.len() && valid_files(files.take(n)) implies raw_total(
        #[trigger] files.take(n),
    ) <= u64::MAX by {
        lemma_raw_total_grows(files, n);
    }
}

/// The total is that of the lengths.
pub proof fn law_lengths_are_summed_up(files: Seq<raw::File>, file: raw::File)
    ensures
        raw_total(Seq::empty()) == 0,
        raw_total(files.push(file)) == raw_total(files) + file.len,
{
    assert(files.push(file).drop_last() =~= files);
}

proof fn lemma_raw_total_grows(files: Seq<raw::File>, n: int)
    requires
        0 <= n <= files.len(),
    ensures
        0 <= raw_total(files.take(n)) <= raw_total(files),
    decreases files.len(),
{
    if n < files.len() {
        lemma_raw_total_grows(files.drop_last(), n);
        assert(files.drop_last().take(n) =~= files.take(n));
    } else {
        assert(files.take(n) =~= files);
        if files.len() > 0 {
            lemma_raw_total_grows(files.drop_last(), n - 1);
            assert(files.drop_last().take(n - 1) =~= files.drop_last());
        }
    }
}

/// A torrent has a last piece if it has at least one piece, and its bytes reach to where
/// the last piece begins.
pub proof fn law_last_piece_begins_in_the_torrent(metainfo: Metainfo, count: int)
    requires
        metainfo.pieces@.len() == 20 * count,
        0 <= total_len(metainfo.structure.files()) <= u64::MAX,
    ensures
        count == 0 ==> !metainfo.has_last_piece(),
        count >= 1 ==> metainfo.has_last_piece() == (metainfo.piece_len * (count - 1) <= total_len(
            metainfo.structure.files(),
        )),
{
}

/// A metainfo says what was decoded: the name, the piece length and the hashes are kept,
/// and it is identified by the hash of the encoded info. A single file has the torrent's
/// name, and a list of files is kept in its order, one file after the other.
pub proof fn law_metainfo_is_what_was_decoded(
    metainfo: Metainfo,
    decoded: raw::Metainfo,
    encoded_info: Seq<u8>,
    i: int,
)
    requires
        metainfo.maps(decoded, encoded_info),
        valid_structure(decoded.info),
    ensures
        metainfo.name@ == decoded.info.name@,
        metainfo.piece_len == decoded.info.piece_len,
        metainfo.pieces@ == decoded.info.pieces@,
        metainfo.info_hash@ == sha1(encoded_info),
        decoded.info.len matches Some(len) ==> {
            &&& metainfo.structure matches FsStructure::File(file)
            &&& file.path@ == decoded.info.name@
            &&& file.len == len
            &&& file.torrent_offset == 0
        },
        decoded.info.files matches Some(files) ==> {
            &&& metainfo.structure matches FsStructure::Archive { files: listed }
            &&& listed@.len() == files@.len()
            &&& 0 <= i < files@.len() ==> {
                &&& listed@[i].path@ == joined_all(texts(files@[i].path@))
                &&& listed@[i].len == files@[i].len
                &&& i == 0 ==> listed@[i].torrent_offset == 0
                &&& i > 0 ==> listed@[i].torrent_offset == listed@[i - 1].torrent_offset + files@[i
                    - 1].len
            }
        },
{
    let views = file_views(metainfo.structure.files());
    assert(views == described_files(decoded.info));
    if decoded.info.len is Some {
        assert(views[0] == described_files(decoded.info)[0]);
    }
    if decoded.info.files is Some {
        let files = decoded.info.files->0;
        if 0 <= i < files@.len() {
            assert(views[i] == described_files(decoded.info)[i]);
            law_listed_files_follow_each_other(decoded.info, files, i);
            if i > 0 {
                assert(views[i - 1] == described_files(decoded.info)[i - 1]);
                law_listed_files_follow_each_other(decoded.info, files, i - 1);
            }
        }
    }
}

} // verus!
