use cratetorrent::metainfo::{add_tracker, can_sum_offsets, raw, Metainfo, MetainfoError, Url};
use cratetorrent::storage_info::{FsStructure, StorageInfo};

fn raw_file(path: &[&str], len: u64) -> raw::File {
    raw::File { path: path.iter().map(|p| p.to_string()).collect(), len }
}

fn raw_metainfo(len: Option<u64>, files: Option<Vec<raw::File>>) -> raw::Metainfo {
    raw::Metainfo {
        info: raw::Info {
            name: "name".to_string(),
            pieces: vec![1; 40],
            piece_len: 100,
            len,
            files,
            private: None,
        },
        announce: Some("http://tracker.example:6969/announce".to_string()),
        announce_list: Vec::new(),
    }
}

fn from_raw(raw: raw::Metainfo) -> Result<Metainfo, MetainfoError> {
    Metainfo::from_bytes(Ok(raw), Ok(b"abc".to_vec()))
}

#[test]
fn a_single_file_torrent_is_valid() {
    let metainfo = from_raw(raw_metainfo(Some(150), None)).unwrap();
    assert_eq!(metainfo.name, "name");
    assert_eq!(metainfo.piece_len, 100);
    assert_eq!(metainfo.piece_count(), 2);
    assert_eq!(metainfo.pieces, vec![1; 40]);
    match &metainfo.structure {
        FsStructure::File(file) => {
            assert_eq!(file.path, "name");
            assert_eq!(file.len, 150);
            assert_eq!(file.torrent_offset, 0);
        }
        _ => panic!("single file expected"),
    }
    assert_eq!(metainfo.structure.download_len(), 150);
    assert_eq!(metainfo.trackers.len(), 1);
    assert_eq!(metainfo.trackers[0].scheme, "http");
    assert_eq!(metainfo.trackers[0].text, "http://tracker.example:6969/announce");
}

#[test]
fn the_info_hash_is_that_of_the_encoded_info() {
    let metainfo = from_raw(raw_metainfo(Some(150), None)).unwrap();
    let expected: [u8; 20] = [
        0xa9, 0x99, 0x3e, 0x36, 0x47, 0x06, 0x81, 0x6a, 0xba, 0x3e, 0x25, 0x71, 0x78, 0x50, 0xc2,
        0x6c, 0x9c, 0xd0, 0xd8, 0x9d,
    ];
    assert_eq!(metainfo.info_hash, expected);
    assert_eq!(raw::Metainfo::create_info_hash(b"abc"), expected);
}

#[test]
fn the_files_of_an_archive_follow_each_other() {
    let files = vec![raw_file(&["a"], 60), raw_file(&["dir", "b"], 90)];
    let metainfo = from_raw(raw_metainfo(None, Some(files))).unwrap();
    let files = metainfo.structure.to_files();
    assert!(matches!(metainfo.structure, FsStructure::Archive { .. }));
    assert_eq!(files.len(), 2);
    assert_eq!(files[0].path, "a");
    assert_eq!(files[0].torrent_offset, 0);
    assert_eq!(files[1].path, "dir/b");
    assert_eq!(files[1].torrent_offset, 60);
    assert_eq!(files[1].len, 90);

    let info = StorageInfo::new(&metainfo, "/tmp");
    assert!(metainfo.check_last_piece());
    assert_eq!(info.piece_count, 2);
    assert_eq!(info.piece_len, 100);
    assert_eq!(info.last_piece_len, 50);
    assert_eq!(info.download_len, 150);
    assert_eq!(info.download_path, "/tmp/name");
    assert!(info.check_layout());
}

#[test]
fn the_last_piece_has_to_be_there() {
    // the second piece would begin behind the end of the file
    let metainfo = from_raw(raw_metainfo(Some(99), None)).unwrap();
    assert!(!metainfo.check_last_piece());
    // the second piece is empty
    let metainfo = from_raw(raw_metainfo(Some(100), None)).unwrap();
    assert!(metainfo.check_last_piece());
    let info = StorageInfo::new(&metainfo, "/tmp");
    assert_eq!(info.last_piece_len, 0);
    assert!(!info.check_layout());
}

#[test]
fn pieces_have_to_be_whole_hashes() {
    let mut raw = raw_metainfo(Some(150), None);
    raw.info.pieces.pop();
    assert!(matches!(from_raw(raw), Err(MetainfoError::InvalidPieces)));
}

#[test]
fn invalid_structures_are_rejected() {
    let invalid = vec![
        raw_metainfo(None, None),
        raw_metainfo(Some(0), None),
        raw_metainfo(Some(1), Some(vec![raw_file(&["a"], 1)])),
        raw_metainfo(None, Some(Vec::new())),
        raw_metainfo(None, Some(vec![raw_file(&["a"], 0)])),
        raw_metainfo(None, Some(vec![raw_file(&["/a"], 1)])),
        raw_metainfo(None, Some(vec![raw_file(&[], 1)])),
        raw_metainfo(None, Some(vec![raw_file(&["a"], 1), raw_file(&["b"], 0)])),
    ];
    for raw in invalid.into_iter() {
        assert!(matches!(from_raw(raw), Err(MetainfoError::InvalidMetainfo)));
    }
}

#[test]
fn encoding_errors_are_passed_on() {
    match Metainfo::from_bytes(Err("unexpected end".to_string()), Ok(Vec::new())) {
        Err(MetainfoError::Bencode(e)) => assert_eq!(e, "unexpected end"),
        _ => panic!("error expected"),
    }
    let raw = raw_metainfo(Some(150), None);
    match Metainfo::from_bytes(Ok(raw), Err("cannot encode".to_string())) {
        Err(MetainfoError::Bencode(e)) => assert_eq!(e, "cannot encode"),
        _ => panic!("error expected"),
    }
}

#[test]
fn the_announce_list_takes_precedence() {
    let mut raw = raw_metainfo(Some(150), None);
    raw.announce_list = vec![
        vec!["udp://one.example:80".to_string(), "https://TWO.example/a".to_string()],
        vec!["http://three.example/announce".to_string()],
    ];
    let metainfo = from_raw(raw).unwrap();
    // only HTTP trackers are used, with their URLs normalised
    let texts: Vec<&str> = metainfo.trackers.iter().map(|url| url.text.as_str()).collect();
    assert_eq!(texts, vec!["https://two.example/a", "http://three.example/announce"]);
    assert_eq!(metainfo.trackers[0].scheme, "https");

    let mut raw = raw_metainfo(Some(150), None);
    raw.announce = None;
    assert!(from_raw(raw).unwrap().trackers.is_empty());
}

#[test]
fn invalid_tracker_urls_are_rejected() {
    let mut raw = raw_metainfo(Some(150), None);
    raw.announce = Some("not a url".to_string());
    assert!(matches!(from_raw(raw), Err(MetainfoError::InvalidTrackerUrl)));

    let mut trackers = Vec::new();
    assert!(matches!(add_tracker(&mut trackers, None), Err(MetainfoError::InvalidTrackerUrl)));
    let udp = Url { scheme: "udp".to_string(), text: "udp://one.example".to_string() };
    assert!(add_tracker(&mut trackers, Some(udp)).is_ok());
    assert!(trackers.is_empty());
    let http = Url { scheme: "http".to_string(), text: "http://one.example/".to_string() };
    assert!(add_tracker(&mut trackers, Some(http)).is_ok());
    assert_eq!(trackers.len(), 1);
}

#[test]
fn file_offsets_do_not_matter_where_they_are_not_summed_up() {
    let files = || Some(vec![raw_file(&["a"], u64::MAX), raw_file(&["b"], 1)]);
    let mut raw = raw_metainfo(None, files());
    raw.info.pieces.pop();
    assert!(matches!(from_raw(raw), Err(MetainfoError::InvalidPieces)));
    let raw = raw_metainfo(Some(1), files());
    assert!(matches!(from_raw(raw), Err(MetainfoError::InvalidMetainfo)));
}

#[test]
fn file_offsets_have_to_be_representable() {
    assert!(can_sum_offsets(&vec![raw_file(&["a"], u64::MAX)]));
    assert!(!can_sum_offsets(&vec![raw_file(&["a"], u64::MAX), raw_file(&["b"], 1)]));
    // the files behind an invalid one don't matter
    let files = vec![raw_file(&["a"], u64::MAX), raw_file(&[], 1), raw_file(&["b"], 1)];
    assert!(can_sum_offsets(&files));
}
