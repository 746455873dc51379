use tds::bencoding::bencode::insert_entry;
use tds::bencoding::{info_hash, Bencode};
use tds::downloader::manager::{tracker_urls, ConnectedPeers, LISTEN_PORT, MAX_SESSIONS};
use tds::downloader::{from_torrent, Downloader, PieceStatus};
use tds::peer_addr::{parse_compact_peers, write_compact_peers, PeerAddr};
use tds::storage::Storage;
use tds::torrent::{FileEntry, TorrentError};
use tds::tracker::TrackerEvent;
use tds::{parse_torrent, Torrent};

fn dict(pairs: Vec<(&str, Bencode)>) -> Bencode {
    let mut entries = Vec::new();
    for (k, v) in pairs {
        insert_entry(&mut entries, k.as_bytes().to_vec(), v);
    }
    Bencode::Dict(entries)
}

fn bytes(s: &str) -> Bencode {
    Bencode::Bytes(s.as_bytes().to_vec())
}

fn info(extra: Vec<(&str, Bencode)>) -> Bencode {
    let mut pairs = vec![
        ("name", bytes("file.bin")),
        ("piece length", Bencode::Int(16384)),
        ("pieces", Bencode::Bytes((0..40u8).collect())),
    ];
    pairs.extend(extra);
    dict(pairs)
}

fn storage() -> Storage {
    Storage { download_dir: std::path::PathBuf::from("downloads") }
}

fn torrent(pieces: Vec<[u8; 20]>, piece_length: u64, length: u64) -> Torrent {
    Torrent {
        announce: "http://tracker.com".to_string(),
        announce_list: None,
        info_hash: [0u8; 20],
        name: "test_file.txt".to_string(),
        pieces,
        piece_length,
        length: Some(length),
        files: None,
    }
}

#[test]
fn a_torrent_file_of_one_file() {
    let info = info(vec![("length", Bencode::Int(20000))]);
    let info_bytes = info.encode();
    let file = dict(vec![("announce", bytes("http://tracker.example/announce")), ("info", info)])
        .encode();
    let t = parse_torrent(&file).unwrap();
    assert_eq!(t.announce, "http://tracker.example/announce");
    assert!(t.announce_list.is_none());
    assert_eq!(t.info_hash, info_hash(&info_bytes));
    assert_eq!(t.name, "file.bin");
    assert_eq!(t.piece_length, 16384);
    assert_eq!(t.length, Some(20000));
    assert!(t.files.is_none());
    assert_eq!(t.pieces.len(), 2);
    let first: Vec<u8> = (0..20u8).collect();
    let second: Vec<u8> = (20..40u8).collect();
    assert_eq!(&t.pieces[0][..], &first[..]);
    assert_eq!(&t.pieces[1][..], &second[..]);
    assert_eq!(t.total_length(), 20000);
}

#[test]
fn the_info_hash_is_that_of_the_bytes_as_they_stand() {
    // The keys of this info dictionary are not in order, and its integer
    // has a leading zero: encoding it again would give other bytes.
    let info = b"d6:pieces0:4:name1:f12:piece lengthi010e6:lengthi0ee";
    let mut file = b"d8:announce1:a4:info".to_vec();
    file.extend_from_slice(info);
    file.push(b'e');
    let t = parse_torrent(&file).unwrap();
    assert_eq!(t.info_hash, info_hash(info));
    assert_eq!(t.piece_length, 10);
    assert_eq!(t.pieces.len(), 0);
}

#[test]
fn a_torrent_file_of_several_files() {
    let files = Bencode::List(vec![
        dict(vec![
            ("length", Bencode::Int(5)),
            ("path", Bencode::List(vec![bytes("dir"), bytes("a.txt")])),
        ]),
        dict(vec![("length", Bencode::Int(7)), ("path", Bencode::List(vec![bytes("b.txt")]))]),
    ]);
    let tiers = Bencode::List(vec![
        Bencode::List(vec![bytes("http://a"), bytes("http://b")]),
        Bencode::List(vec![bytes("udp://c:1")]),
    ]);
    let file = dict(vec![
        ("announce", bytes("http://a")),
        ("announce-list", tiers),
        ("info", info(vec![("files", files)])),
    ])
    .encode();
    let t = parse_torrent(&file).unwrap();
    assert_eq!(
        t.announce_list,
        Some(vec![
            vec!["http://a".to_string(), "http://b".to_string()],
            vec!["udp://c:1".to_string()]
        ])
    );
    assert!(t.length.is_none());
    let files = t.files.as_ref().unwrap();
    assert_eq!(files.len(), 2);
    assert_eq!(files[0].length, 5);
    assert_eq!(files[0].path, vec!["dir".to_string(), "a.txt".to_string()]);
    assert_eq!(files[1].length, 7);
    assert_eq!(t.total_length(), 12);
    assert_eq!(
        tracker_urls(&t),
        vec!["http://a".to_string(), "http://b".to_string(), "udp://c:1".to_string()]
    );
}

#[test]
fn an_announce_list_of_another_form_counts_as_none() {
    for list in [
        bytes("http://a"),
        Bencode::List(vec![bytes("http://a")]),
        Bencode::List(vec![Bencode::List(vec![Bencode::Int(1)])]),
    ] {
        let file = dict(vec![
            ("announce", bytes("http://a")),
            ("announce-list", list),
            ("info", info(vec![("length", Bencode::Int(1))])),
        ])
        .encode();
        assert!(parse_torrent(&file).unwrap().announce_list.is_none());
    }
}

#[test]
fn torrent_files_that_are_refused() {
    assert_eq!(parse_torrent(b"").unwrap_err(), TorrentError::CodecInvalid);
    assert_eq!(parse_torrent(b"d8:announce").unwrap_err(), TorrentError::CodecInvalid);
    assert_eq!(parse_torrent(b"i1e").unwrap_err(), TorrentError::ManifestInvalid);
    assert_eq!(parse_torrent(b"le").unwrap_err(), TorrentError::ManifestInvalid);
    assert_eq!(parse_torrent(b"de").unwrap_err(), TorrentError::ManifestInvalid);
    let good = info(vec![("length", Bencode::Int(1))]).encode();
    let refused = |root: Bencode| {
        assert_eq!(parse_torrent(&root.encode()).unwrap_err(), TorrentError::ManifestInvalid)
    };
    refused(dict(vec![("info", info(vec![("length", Bencode::Int(1))]))]));
    refused(dict(vec![
        ("announce", Bencode::Int(1)),
        ("info", info(vec![("length", Bencode::Int(1))])),
    ]));
    refused(dict(vec![("announce", bytes("a"))]));
    refused(dict(vec![("announce", bytes("a")), ("info", Bencode::Bytes(good))]));
    refused(dict(vec![("announce", bytes("a")), ("info", info(vec![]))]));
    refused(dict(vec![("announce", bytes("a")), ("info", info(vec![("length", bytes("1"))]))]));
    refused(dict(vec![
        ("announce", bytes("a")),
        ("info", info(vec![("length", Bencode::Int(-1))])),
    ]));
    refused(dict(vec![("announce", bytes("a")), ("info", info(vec![("files", bytes("x"))]))]));
    refused(dict(vec![
        ("announce", bytes("a")),
        ("info", info(vec![("files", Bencode::List(vec![dict(vec![("length", Bencode::Int(1))])]))])),
    ]));
    let broken = |key: &str, value: Option<Bencode>| {
        let mut pairs = vec![
            ("name", bytes("f")),
            ("piece length", Bencode::Int(16384)),
            ("pieces", Bencode::Bytes(vec![0; 20])),
            ("length", Bencode::Int(1)),
        ];
        pairs.retain(|(k, _)| *k != key);
        if let Some(v) = value {
            pairs.push((key, v));
        }
        dict(vec![("announce", bytes("a")), ("info", dict(pairs))])
    };
    refused(broken("name", None));
    refused(broken("name", Some(Bencode::Int(1))));
    refused(broken("piece length", None));
    refused(broken("piece length", Some(Bencode::Int(0))));
    refused(broken("piece length", Some(Bencode::Int(-5))));
    refused(broken("pieces", None));
    refused(broken("pieces", Some(Bencode::Bytes(vec![0; 19]))));
    refused(broken("pieces", Some(Bencode::Bytes(vec![0; 21]))));
    assert!(parse_torrent(&broken("pieces", Some(Bencode::Bytes(vec![]))).encode()).is_ok());
}

#[test]
fn text_that_is_not_unicode_is_replaced() {
    let mut file = b"d8:announce3:a".to_vec();
    file.extend_from_slice(&[0xff, b'b']);
    file.extend_from_slice(b"4:infod6:lengthi1e4:name1:f12:piece lengthi1e6:pieces0:ee");
    assert_eq!(parse_torrent(&file).unwrap().announce, "a\u{fffd}b");
}

#[test]
fn total_length_of_a_torrent() {
    let mut t = torrent(vec![[0u8; 20]], 10, 10);
    assert_eq!(t.total_length(), 10);
    t.length = None;
    assert_eq!(t.total_length(), 0);
    t.files = Some(vec![
        FileEntry { length: 3, path: vec![] },
        FileEntry { length: 4, path: vec![] },
    ]);
    assert_eq!(t.total_length(), 7);
    t.files = Some(vec![
        FileEntry { length: u64::MAX - 1, path: vec![] },
        FileEntry { length: 4, path: vec![] },
        FileEntry { length: 4, path: vec![] },
    ]);
    assert_eq!(t.total_length(), u64::MAX);
}

#[test]
fn test_from_torrent_basic() {
    let mut rng = rand::rng();
    let downloader = from_torrent(torrent(vec![[0u8; 20]], 1024, 1024), storage(), &mut rng).unwrap();
    assert_eq!(downloader.total_length, 1024);
    assert_eq!(downloader.pieces.status.len(), 1);
    assert_eq!(downloader.pieces.status[0], PieceStatus::Missing);
    assert_eq!(&downloader.peer_id[..8], b"-TD0001-");
    assert_eq!(downloader.file_name(), "test_file.txt");
    assert_eq!(downloader.pieces.downloaded_bytes, 0);
}

#[test]
fn peer_ids_are_tagged_and_random() {
    let mut rng = rand::rng();
    let mut tails = Vec::new();
    for _ in 0..8 {
        let d = from_torrent(torrent(vec![[0u8; 20]], 10, 10), storage(), &mut rng).unwrap();
        assert_eq!(&d.peer_id[..8], b"-TD0001-");
        tails.push(d.peer_id[8..].to_vec());
    }
    tails.dedup();
    assert!(tails.len() > 1);
    let id = tds::downloader::init::make_peer_id([0x55; 20]);
    assert_eq!(&id[..8], b"-TD0001-");
    assert_eq!(&id[8..], &[0x55; 12]);
}

#[test]
fn a_manifest_whose_pieces_do_not_lay_out_its_content_is_refused() {
    let mut rng = rand::rng();
    for (count, piece_length, length) in [(1, 10, 11), (2, 10, 10), (0, 10, 5), (1, 10, 0)] {
        let t = torrent(vec![[0u8; 20]; count], piece_length, length);
        assert!(matches!(
            from_torrent(t, storage(), &mut rng),
            Err(TorrentError::ManifestInvalid)
        ));
    }
    let mut t = torrent(vec![[0u8; 20]], 10, 10);
    t.length = None;
    assert!(from_torrent(t, storage(), &mut rng).is_err());
}

#[test]
fn a_torrent_of_several_files_goes_to_one_output_file() {
    let mut rng = rand::rng();
    let mut t = torrent(vec![[0u8; 20]], 10, 10);
    t.length = None;
    t.files = Some(vec![FileEntry { length: 10, path: vec!["a".to_string()] }]);
    let d = from_torrent(t, storage(), &mut rng).unwrap();
    assert_eq!(d.file_name(), "output.bin");
    assert_eq!(d.total_length, 10);
}

#[test]
fn test_check_existing_data() {
    let mut rng = rand::rng();
    let piece_data = vec![b'A'; 10];
    let hash = info_hash(&piece_data);
    assert_eq!(hex::encode(hash), "c71613a7386fd67995708464bf0223c0d78225c4");
    assert_eq!(
        hex::encode(info_hash(b"hello world")),
        "2aae6c35c94fcfb415dbe95f408b9ce91ee846ed"
    );
    let mut t = torrent(vec![hash], 10, 10);
    t.name = "existing.txt".to_string();
    let mut downloader = from_torrent(t, storage(), &mut rng).unwrap();
    assert_eq!(downloader.pieces.status[0], PieceStatus::Missing);
    downloader.check_existing_data(&piece_data);
    assert_eq!(downloader.pieces.status[0], PieceStatus::Have);
    assert_eq!(downloader.pieces.downloaded_bytes, 10);
    assert!(downloader.pieces.is_complete());
    assert_eq!(downloader.announce_request().left, 0);
}

#[test]
fn existing_data_is_checked_piece_by_piece() {
    let mut rng = rand::rng();
    let content: Vec<u8> = (0..25u8).collect();
    let hashes = vec![
        info_hash(&content[..10]),
        info_hash(b"something else"),
        info_hash(&content[20..]),
    ];
    let fresh = |rng: &mut rand::rngs::ThreadRng| -> Downloader {
        from_torrent(torrent(hashes.clone(), 10, 25), storage(), rng).unwrap()
    };
    let mut d = fresh(&mut rng);
    d.check_existing_data(&content);
    assert_eq!(
        d.pieces.status,
        vec![PieceStatus::Have, PieceStatus::Missing, PieceStatus::Have]
    );
    assert_eq!(d.pieces.downloaded_bytes, 15);
    // A second look changes nothing.
    d.check_existing_data(&content);
    assert_eq!(d.pieces.downloaded_bytes, 15);
    // A file that is too short holds only its first pieces.
    let mut d = fresh(&mut rng);
    d.check_existing_data(&content[..24]);
    assert_eq!(
        d.pieces.status,
        vec![PieceStatus::Have, PieceStatus::Missing, PieceStatus::Missing]
    );
    let mut d = fresh(&mut rng);
    d.check_existing_data(&[]);
    assert_eq!(d.pieces.downloaded_bytes, 0);
    // Step by step.
    let mut d = fresh(&mut rng);
    assert_eq!(d.existing_range(0, 25), Some((0, 10)));
    assert_eq!(d.existing_range(2, 25), Some((20, 5)));
    assert_eq!(d.existing_range(2, 24), None);
    assert_eq!(d.existing_range(3, 100), None);
    assert!(d.check_piece(2, &content[20..]));
    assert!(!d.check_piece(2, &content[19..]));
    assert!(!d.check_piece(1, &content[10..20]));
    assert!(!d.check_piece(0, &content[..9]));
    assert!(!d.check_piece(3, &content[..10]));
    assert_eq!(d.pieces.downloaded_bytes, 5);
    assert_eq!(d.announce_request().left, 20);
}

#[test]
fn a_piece_is_taken_up_on_its_length_and_digest() {
    let mut rng = rand::rng();
    let hashes = vec![[1u8; 20], [2u8; 20], [3u8; 20]];
    let mut d = from_torrent(torrent(hashes, 10, 25), storage(), &mut rng).unwrap();
    assert!(!d.accept_piece(0, 10, &[2; 20]));
    assert!(!d.accept_piece(0, 9, &[1; 20]));
    assert!(!d.accept_piece(2, 10, &[3; 20]));
    assert!(!d.accept_piece(3, 10, &[3; 20]));
    assert_eq!(d.pieces.downloaded_bytes, 0);
    assert!(d.accept_piece(2, 5, &[3; 20]));
    assert!(d.accept_piece(0, 10, &[1; 20]));
    assert_eq!(
        d.pieces.status,
        vec![PieceStatus::Have, PieceStatus::Missing, PieceStatus::Have]
    );
    assert_eq!(d.pieces.downloaded_bytes, 15);
    assert!(d.accept_piece(0, 10, &[1; 20]));
    assert_eq!(d.pieces.downloaded_bytes, 15);
}

#[test]
fn a_download_is_set_up_from_a_torrent_file() {
    let mut rng = rand::rng();
    let info = info(vec![("length", Bencode::Int(20000))]);
    let info_bytes = info.encode();
    let file = dict(vec![("announce", bytes("http://tracker.example/announce")), ("info", info)])
        .encode();
    let d = Downloader::new(&file, storage(), &mut rng).unwrap();
    assert!(d.is_consistent());
    assert_eq!(d.torrent.info_hash, info_hash(&info_bytes));
    assert_eq!(d.torrent.announce, "http://tracker.example/announce");
    assert_eq!(d.total_length, 20000);
    assert_eq!(d.pieces.status, vec![PieceStatus::Missing; 2]);
    assert_eq!((d.pieces.downloaded_bytes, d.pieces.uploaded_bytes), (0, 0));
    assert_eq!(&d.peer_id[..8], b"-TD0001-");
    assert_eq!(d.file_name(), "file.bin");
    let d = Downloader::from_torrent(parse_torrent(&file).unwrap(), storage(), &mut rng).unwrap();
    assert_eq!(d.pieces.status.len(), 2);
    // A file that is no manifest, and a manifest whose pieces do not lay
    // out its content.
    assert!(matches!(
        Downloader::new(b"i1e", storage(), &mut rng),
        Err(TorrentError::ManifestInvalid)
    ));
    assert!(matches!(
        Downloader::new(b"d8:announce", storage(), &mut rng),
        Err(TorrentError::CodecInvalid)
    ));
    let short = dict(vec![
        ("announce", bytes("a")),
        ("info", info_of_length(16384)),
    ])
    .encode();
    assert!(matches!(
        Downloader::new(&short, storage(), &mut rng),
        Err(TorrentError::ManifestInvalid)
    ));
}

fn info_of_length(length: i64) -> Bencode {
    info(vec![("length", Bencode::Int(length))])
}

#[test]
fn the_first_announce() {
    let mut rng = rand::rng();
    let mut t = torrent(vec![[0u8; 20]; 2], 10, 15);
    t.info_hash = [4u8; 20];
    let d = from_torrent(t, storage(), &mut rng).unwrap();
    let req = d.announce_request();
    assert_eq!(req.info_hash, [4u8; 20]);
    assert_eq!(req.peer_id, d.peer_id);
    assert_eq!(req.port, 6881);
    assert_eq!(LISTEN_PORT, 6881);
    assert_eq!((req.uploaded, req.downloaded, req.left), (0, 0, 15));
    assert!(req.compact);
    assert!(!req.no_peer_id);
    assert_eq!(req.event, Some(TrackerEvent::Started));
    assert_eq!(req.numwant, Some(50));
    assert!(req.ip.is_none() && req.key.is_none() && req.tracker_id.is_none());
    assert_eq!(MAX_SESSIONS, 50);
}

#[test]
fn trackers_are_asked_in_order_and_the_first_only_once() {
    let mut t = torrent(vec![], 10, 0);
    assert_eq!(tracker_urls(&t), vec!["http://tracker.com".to_string()]);
    t.announce_list = Some(vec![
        vec!["http://x".to_string(), "http://tracker.com".to_string()],
        vec![],
        vec!["http://tracker.com".to_string(), "http://y".to_string(), "http://x".to_string()],
    ]);
    assert_eq!(
        tracker_urls(&t),
        vec![
            "http://tracker.com".to_string(),
            "http://x".to_string(),
            "http://y".to_string(),
            "http://x".to_string()
        ]
    );
}

#[test]
fn a_candidate_that_comes_again_is_dropped() {
    let a = PeerAddr { ip: 0x01020304, port: 6881 };
    let b = PeerAddr { ip: 0x01020304, port: 6882 };
    let c = PeerAddr { ip: 0x01020305, port: 6881 };
    let mut set = ConnectedPeers::new();
    assert!(set.try_insert(a));
    assert!(!set.try_insert(a));
    assert!(set.try_insert(b));
    assert!(set.try_insert(c));
    set.remove(a);
    assert!(!set.try_insert(b));
    assert!(set.try_insert(a));
    set.remove(PeerAddr { ip: 9, port: 9 });
    assert!(!set.try_insert(c));
}

#[test]
fn compact_peers() {
    let bytes = [1, 1, 1, 1, 0x1B, 0x39, 127, 0, 0, 1, 0x1f, 0x90, 7, 7];
    let peers = parse_compact_peers(&bytes);
    assert_eq!(
        peers,
        vec![PeerAddr { ip: 0x01010101, port: 6969 }, PeerAddr { ip: 0x7f000001, port: 8080 }]
    );
    assert_eq!(peers[1].octets(), [127, 0, 0, 1]);
    assert_eq!(peers[0].key(), (0x01010101u64 << 16) + 6969);
    assert_eq!(write_compact_peers(&peers), bytes[..12].to_vec());
    assert!(parse_compact_peers(&[1, 2, 3, 4, 5]).is_empty());
    assert!(write_compact_peers(&vec![]).is_empty());
}

#[test]
fn test_get_file_path() {
    let dir = std::path::PathBuf::from("some").join("downloads");
    let storage = Storage { download_dir: dir.clone() };
    let filename = "test_file.txt";
    let file_path = storage.get_file_path(filename);
    assert_eq!(file_path, dir.join(filename));
    assert_eq!(storage.get_download_dir_str(), dir.to_string_lossy().to_string());
}
