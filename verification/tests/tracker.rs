use cratetorrent::tracker::{compact_peers, Addr, Announce, Event};

fn addr(ip: u128, port: u16) -> Addr {
    Addr { is_v6: false, ip, port, flowinfo: 0, scope_id: 0 }
}

#[test]
fn compact_peers_are_six_bytes_each() {
    assert!(compact_peers(&[]).is_empty());
    assert!(compact_peers(&[127, 0, 0, 1, 0]).is_empty());
    let bytes = [127, 0, 0, 1, 0x1a, 0xe1, 192, 168, 0, 10, 0xff, 0xff, 9];
    assert_eq!(compact_peers(&bytes), vec![addr(0x7f00_0001, 6881), addr(0xc0a8_000a, 0xffff)]);
}

#[test]
fn an_announce_is_a_query() {
    let mut announce = Announce {
        tracker_id: None,
        info_hash: [0xab; 20],
        peer_id: *b"cbt-0000000000000000",
        port: 6881,
        peer_count: None,
        downloaded: 1,
        uploaded: 0,
        left: 23,
        event: None,
    };
    let query = format!(
        "info_hash={}&peer_id=%63%62%74%2D{}&port=6881&uploaded=0&downloaded=1&left=23&compact=1",
        "%AB".repeat(20),
        "%30".repeat(16)
    );
    assert_eq!(announce.query(), query);

    announce.peer_count = Some(10);
    announce.tracker_id = Some("a&z".to_string());
    for (event, name) in [
        (Event::Started, "started"),
        (Event::Completed, "completed"),
        (Event::Stopped, "stopped"),
    ]
    .iter()
    {
        announce.event = Some(*event);
        let expected = format!("{}&numwant=10&trackerid=%61%26%7A&event={}", query, name);
        assert_eq!(announce.query(), expected);
    }
}
