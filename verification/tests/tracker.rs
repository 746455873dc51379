use tds::bencoding::bencode::insert_entry;
use tds::bencoding::Bencode;
use tds::peer_addr::PeerAddr;
use tds::tracker::http::{parse_dotted_quad, parse_http_response};
use tds::tracker::query::{form_decode, hex_digit, raw_value};
use tds::tracker::server::{
    announce_from_parts, announce_response, parse_announce, parse_port, rate_limited_response,
    route, route_words, AnnounceError, IpAddress, Route, TrackerServer, TrackerState,
};
use tds::url_parts::ParsedUrl;
use tds::tracker::udp::EndpointError;
use tds::tracker::{
    get_tracker_client, HttpTracker, TrackerError, TrackerEvent, TrackerKind, TrackerRequest,
    UdpTracker,
};

fn dict(pairs: Vec<(&str, Bencode)>) -> Bencode {
    let mut entries = Vec::new();
    for (k, v) in pairs {
        insert_entry(&mut entries, k.as_bytes().to_vec(), v);
    }
    Bencode::Dict(entries)
}

fn bytes(s: &[u8]) -> Bencode {
    Bencode::Bytes(s.to_vec())
}

fn request() -> TrackerRequest {
    TrackerRequest {
        info_hash: [0x12; 20],
        peer_id: *b"-TD0001-abcdefghijkl",
        port: 6881,
        uploaded: 1,
        downloaded: 22,
        left: 333,
        compact: true,
        no_peer_id: false,
        event: Some(TrackerEvent::Started),
        ip: None,
        numwant: Some(50),
        key: None,
        tracker_id: None,
    }
}

fn text(s: &[u8]) -> String {
    String::from_utf8_lossy(s).to_string()
}

#[test]
fn the_client_follows_the_scheme() {
    match get_tracker_client("http://t.example/announce") {
        Some(TrackerKind::Http(t)) => assert_eq!(t.url, "http://t.example/announce"),
        _ => panic!("no HTTP client"),
    }
    assert!(matches!(get_tracker_client("https://t.example/a"), Some(TrackerKind::Http(_))));
    match get_tracker_client("udp://t.example:1337") {
        Some(TrackerKind::Udp(t)) => assert_eq!(t.url, "udp://t.example:1337"),
        _ => panic!("no UDP client"),
    }
    assert!(get_tracker_client("ws://t.example").is_none());
    assert!(get_tracker_client("").is_none());
    assert!(get_tracker_client("http:/t").is_none());
    assert!(get_tracker_client("HTTP://t").is_none());
    assert_eq!(HttpTracker::new("x").url, "x");
    assert_eq!(UdpTracker::new("y").url, "y");
}

#[test]
fn the_url_of_an_announce() {
    let tracker = HttpTracker::new("http://t.example/announce");
    let hash = "%12".repeat(20);
    assert_eq!(
        text(&tracker.announce_url(&request())),
        format!(
            "http://t.example/announce?info_hash={}&peer_id=-TD0001-abcdefghijkl&port=6881&uploaded=1&downloaded=22&left=333&compact=1&event=started&numwant=50",
            hash
        )
    );
    let mut req = request();
    req.info_hash = *b" *-._~aZ09\x00\xff/+=&%?#!";
    req.compact = false;
    req.no_peer_id = true;
    req.event = Some(TrackerEvent::Completed);
    req.numwant = None;
    req.key = Some(u32::MAX);
    req.tracker_id = Some("id 1&2".to_string());
    req.uploaded = u64::MAX;
    req.left = 0;
    let tracker = HttpTracker::new("http://t.example/announce?passkey=1");
    assert_eq!(
        text(&tracker.announce_url(&req)),
        "http://t.example/announce?passkey=1&info_hash=+*-._%7EaZ09%00%FF%2F%2B%3D%26%25%3F%23%21&peer_id=-TD0001-abcdefghijkl&port=6881&uploaded=18446744073709551615&downloaded=22&left=0&compact=0&no_peer_id=1&event=completed&key=4294967295&trackerid=id+1%262"
    );
    req.event = Some(TrackerEvent::Stopped);
    req.key = None;
    req.tracker_id = None;
    req.no_peer_id = false;
    assert!(text(&tracker.announce_url(&req)).ends_with("&compact=0&event=stopped"));
    req.event = None;
    assert!(text(&tracker.announce_url(&req)).ends_with("&left=0&compact=0"));
}

#[test]
fn an_answer_in_the_compact_form() {
    let root = dict(vec![
        ("interval", Bencode::Int(1800)),
        ("complete", Bencode::Int(5)),
        ("incomplete", Bencode::Int(7)),
        ("peers", bytes(&[1, 2, 3, 4, 0x1a, 0xe1, 5, 6, 7, 8, 0, 80, 1])),
    ]);
    let r = parse_http_response(&root).unwrap();
    assert_eq!(r.interval, 1800);
    assert_eq!(r.complete, Some(5));
    assert_eq!(r.incomplete, Some(7));
    assert_eq!(
        r.peers,
        vec![PeerAddr { ip: 0x01020304, port: 6881 }, PeerAddr { ip: 0x05060708, port: 80 }]
    );
    let r = HttpTracker::parse_response(&root.encode()).unwrap();
    assert_eq!(r.peers.len(), 2);
}

#[test]
fn an_answer_with_a_list_of_peers() {
    let peer = |ip: Bencode, port: Bencode| dict(vec![("ip", ip), ("port", port)]);
    let root = dict(vec![
        ("interval", Bencode::Int((1 << 32) + 60)),
        ("complete", bytes(b"5")),
        (
            "peers",
            Bencode::List(vec![
                peer(bytes(b"10.0.0.1"), Bencode::Int(6881)),
                peer(bytes(b"example.org"), Bencode::Int(1)),
                peer(bytes(b"10.0.0.256"), Bencode::Int(1)),
                peer(Bencode::Int(1), Bencode::Int(1)),
                peer(bytes(b"10.0.0.2"), bytes(b"1")),
                dict(vec![("ip", bytes(b"10.0.0.3"))]),
                Bencode::Int(3),
                peer(bytes(b"255.255.255.255"), Bencode::Int(65536 + 9)),
            ]),
        ),
    ]);
    let r = parse_http_response(&root).unwrap();
    assert_eq!(r.interval, 60);
    assert_eq!(r.complete, None);
    assert_eq!(r.incomplete, None);
    assert_eq!(
        r.peers,
        vec![PeerAddr { ip: 0x0a000001, port: 6881 }, PeerAddr { ip: u32::MAX, port: 9 }]
    );
    let root = dict(vec![("interval", Bencode::Int(1)), ("peers", Bencode::Int(1))]);
    assert!(parse_http_response(&root).unwrap().peers.is_empty());
    let root = dict(vec![("interval", Bencode::Int(1))]);
    assert!(parse_http_response(&root).unwrap().peers.is_empty());
}

#[test]
fn answers_that_fail() {
    let root = dict(vec![("failure reason", bytes(b"not allowed")), ("interval", Bencode::Int(1))]);
    assert_eq!(
        parse_http_response(&root).unwrap_err(),
        TrackerError::Failure(b"not allowed".to_vec())
    );
    assert_eq!(parse_http_response(&dict(vec![])).unwrap_err(), TrackerError::MissingInterval);
    let root = dict(vec![("interval", bytes(b"1800"))]);
    assert_eq!(parse_http_response(&root).unwrap_err(), TrackerError::MissingInterval);
    assert_eq!(
        parse_http_response(&Bencode::List(vec![])).unwrap_err(),
        TrackerError::InvalidResponse
    );
    assert_eq!(
        HttpTracker::parse_response(b"<html>").unwrap_err(),
        TrackerError::InvalidResponse
    );
    assert_eq!(HttpTracker::parse_response(b"i1e").unwrap_err(), TrackerError::InvalidResponse);
}

#[test]
fn dotted_quads() {
    assert_eq!(parse_dotted_quad(b"127.0.0.1"), Some(0x7f000001));
    assert_eq!(parse_dotted_quad(b"0.0.0.0"), Some(0));
    assert_eq!(parse_dotted_quad(b"255.255.255.255"), Some(u32::MAX));
    assert_eq!(parse_dotted_quad(b"1.2.3.4"), Some(0x01020304));
    for bad in [
        &b""[..],
        b"1.2.3",
        b"1.2.3.4.5",
        b"1.2.3.4.",
        b".1.2.3.4",
        b"1..2.3",
        b"256.1.1.1",
        b"1.1.1.256",
        b"01.1.1.1",
        b"1.1.1.01",
        b"1.1.1.1 ",
        b" 1.1.1.1",
        b"1.1.1.a",
        b"1.1.1.-1",
        b"1111.1.1.1",
        b"1.1.1.1111",
        b"1,1,1,1",
    ] {
        assert_eq!(parse_dotted_quad(bad), None);
    }
    assert_eq!(parse_dotted_quad(b"10.20.30.40"), Some(0x0a141e28));
    assert_eq!(parse_dotted_quad(b"192.168.1.254"), Some(0xc0a801fe));
    assert_eq!(parse_dotted_quad(b"100.200.0.255"), Some(0x64c800ff));
    assert_eq!(parse_dotted_quad(b"00.1.1.1"), None);
}

#[test]
fn the_endpoint_of_a_udp_tracker() {
    assert_eq!(
        UdpTracker::new("udp://tracker.opentrackr.org:1337").endpoint().unwrap(),
        ("tracker.opentrackr.org".to_string(), 1337)
    );
    assert_eq!(
        UdpTracker::new("udp://10.0.0.1:80/announce").endpoint().unwrap(),
        ("10.0.0.1".to_string(), 80)
    );
    assert_eq!(
        UdpTracker::new("udp://tracker.example").endpoint().unwrap_err(),
        EndpointError::MissingPort
    );
    assert_eq!(
        UdpTracker::new("magnet:?x=1").endpoint().unwrap_err(),
        EndpointError::MissingHost
    );
    assert_eq!(UdpTracker::new("tracker").endpoint().unwrap_err(), EndpointError::InvalidUrl);
}

#[test]
fn the_connect_exchange() {
    assert_eq!(
        UdpTracker::connect_request(0x01020304),
        vec![0, 0, 4, 0x17, 0x27, 0x10, 0x19, 0x80, 0, 0, 0, 0, 1, 2, 3, 4]
    );
    let answer = [0, 0, 0, 0, 1, 2, 3, 4, 0x11, 0x22, 0x33, 0x44, 0x55, 0x66, 0x77, 0x88];
    assert_eq!(
        UdpTracker::parse_connect_response(&answer, 0x01020304),
        Ok(0x1122334455667788)
    );
    let mut long = answer.to_vec();
    long.push(0);
    assert_eq!(UdpTracker::parse_connect_response(&long, 0x01020304), Ok(0x1122334455667788));
    assert_eq!(
        UdpTracker::parse_connect_response(&answer[..15], 0x01020304).unwrap_err(),
        TrackerError::TooShort
    );
    assert_eq!(
        UdpTracker::parse_connect_response(&answer, 0x01020305).unwrap_err(),
        TrackerError::TransactionMismatch
    );
    let mut other = answer;
    other[3] = 3;
    assert_eq!(
        UdpTracker::parse_connect_response(&other, 0x01020304).unwrap_err(),
        TrackerError::UnexpectedAction(3)
    );
}

#[test]
fn the_announce_exchange() {
    let mut req = request();
    req.downloaded = 0x0102030405060708;
    let packet = UdpTracker::announce_request(0x1122334455667788, 0xa1a2a3a4, 0xb1b2b3b4, &req);
    assert_eq!(packet.len(), 98);
    assert_eq!(&packet[0..8], &[0x11, 0x22, 0x33, 0x44, 0x55, 0x66, 0x77, 0x88]);
    assert_eq!(&packet[8..12], &[0, 0, 0, 1]);
    assert_eq!(&packet[12..16], &[0xa1, 0xa2, 0xa3, 0xa4]);
    assert_eq!(&packet[16..36], &[0x12; 20]);
    assert_eq!(&packet[36..56], b"-TD0001-abcdefghijkl");
    assert_eq!(&packet[56..64], &[1, 2, 3, 4, 5, 6, 7, 8]);
    assert_eq!(&packet[64..72], &[0, 0, 0, 0, 0, 0, 1, 0x4d]);
    assert_eq!(&packet[72..80], &[0, 0, 0, 0, 0, 0, 0, 1]);
    assert_eq!(&packet[80..84], &[0, 0, 0, 2]);
    assert_eq!(&packet[84..88], &[0, 0, 0, 0]);
    assert_eq!(&packet[88..92], &[0xb1, 0xb2, 0xb3, 0xb4]);
    assert_eq!(&packet[92..96], &[0xff, 0xff, 0xff, 0xff]);
    assert_eq!(&packet[96..98], &[0x1a, 0xe1]);
    for (event, number) in [
        (None, 0),
        (Some(TrackerEvent::Completed), 1),
        (Some(TrackerEvent::Started), 2),
        (Some(TrackerEvent::Stopped), 3),
    ] {
        req.event = event;
        assert_eq!(UdpTracker::announce_request(1, 2, 3, &req)[83], number);
    }
    let mut answer = vec![0, 0, 0, 1, 0, 0, 0, 9, 0, 0, 7, 8, 0, 0, 0, 3, 0, 0, 0, 4];
    answer.extend_from_slice(&[10, 0, 0, 1, 0x1a, 0xe1, 10, 0, 0, 2, 0x1a, 0xe2, 1, 2, 3]);
    let r = UdpTracker::parse_announce_response(&answer, 9).unwrap();
    assert_eq!(r.interval, 0x708);
    assert_eq!(r.incomplete, Some(3));
    assert_eq!(r.complete, Some(4));
    assert_eq!(
        r.peers,
        vec![PeerAddr { ip: 0x0a000001, port: 6881 }, PeerAddr { ip: 0x0a000002, port: 6882 }]
    );
    assert!(UdpTracker::parse_announce_response(&answer[..20], 9).unwrap().peers.is_empty());
    assert_eq!(
        UdpTracker::parse_announce_response(&answer[..19], 9).unwrap_err(),
        TrackerError::TooShort
    );
    assert_eq!(
        UdpTracker::parse_announce_response(&answer, 8).unwrap_err(),
        TrackerError::TransactionMismatch
    );
    answer[3] = 0;
    assert_eq!(
        UdpTracker::parse_announce_response(&answer, 9).unwrap_err(),
        TrackerError::UnexpectedAction(0)
    );
    let mut error = vec![0, 0, 0, 3, 0, 0, 0, 9];
    error.extend_from_slice(b"unknown torrent");
    assert_eq!(
        UdpTracker::parse_announce_response(&error, 9).unwrap_err(),
        TrackerError::Failure(b"unknown torrent".to_vec())
    );
}

#[test]
fn transaction_ids_are_random() {
    let mut rng = rand::rng();
    let mut ids: Vec<u32> = (0..16).map(|_| UdpTracker::fresh_id(&mut rng)).collect();
    ids.sort();
    ids.dedup();
    assert!(ids.len() > 1);
}

#[test]
fn the_tracker_routes_requests() {
    match route(b"GET /announce?info_hash=abc HTTP/1.1\r\nHost: x\r\n\r\n") {
        Route::Announce(path) => assert_eq!(path, "/announce?info_hash=abc"),
        _ => panic!("no announce"),
    }
    assert!(matches!(route(b"GET /announce HTTP/1.1"), Route::Announce(_)));
    assert!(matches!(route(b"GET\t/announcement\n"), Route::Announce(_)));
    match route(b"  GET \t /announce?x=1   HTTP/1.1\nGET /other") {
        Route::Announce(path) => assert_eq!(path, "/announce?x=1"),
        _ => panic!("no announce"),
    }
    assert!(matches!(route(b"\nGET /announce"), Route::Ignore));
    assert!(matches!(route(b"GET / HTTP/1.1\r\n"), Route::NotFound));
    assert!(matches!(route(b"GET /scrape HTTP/1.1\r\n"), Route::NotFound));
    assert!(matches!(route(b"POST /announce HTTP/1.1\r\n"), Route::Ignore));
    assert!(matches!(route(b"get /announce HTTP/1.1\r\n"), Route::Ignore));
    assert!(matches!(route(b"GET\r\n/announce"), Route::Ignore));
    assert!(matches!(route(b"GET"), Route::Ignore));
    assert!(matches!(route(b""), Route::Ignore));
    assert!(matches!(route(b"\r\nGET /announce"), Route::Ignore));
}

#[test]
fn the_query_of_an_announce() {
    let p = parse_announce("/announce?info_hash=infohash1&peer_id=peer1&port=6881").unwrap();
    assert_eq!(p.info_hash, b"infohash1".to_vec());
    assert_eq!(p.peer_id, "peer1");
    assert_eq!(p.port, 6881);
    let p = parse_announce("/announce?port=1&info_hash=a&port=2&info_hash=b%20c").unwrap();
    assert_eq!(p.info_hash, b"b c".to_vec());
    assert_eq!(p.peer_id, "");
    assert_eq!(p.port, 2);
    let p = parse_announce("/announce?info_hash=a&port=70000").unwrap();
    assert_eq!(p.port, 0);
    assert_eq!(
        parse_announce("/announce?peer_id=x").unwrap_err(),
        AnnounceError::MissingInfoHash
    );
    assert_eq!(parse_announce("/announce").unwrap_err(), AnnounceError::MissingInfoHash);
    assert_eq!(parse_announce(":99999/announce").unwrap_err(), AnnounceError::InvalidUrl);
}

#[test]
fn ports_in_text() {
    assert_eq!(parse_port(b"6881"), 6881);
    assert_eq!(parse_port(b"+80"), 80);
    assert_eq!(parse_port(b"0"), 0);
    assert_eq!(parse_port(b"65535"), 65535);
    assert_eq!(parse_port(b"65536"), 0);
    assert_eq!(parse_port(b""), 0);
    assert_eq!(parse_port(b"+"), 0);
    assert_eq!(parse_port(b"-1"), 0);
    assert_eq!(parse_port(b"80 "), 0);
    assert_eq!(parse_port(b"0080"), 80);
    for text in ["1", "+65535", "++1", "x", "99999999999999999999999", "007"] {
        assert_eq!(parse_port(text.as_bytes()), text.parse::<u16>().ok().unwrap_or(0));
    }
}

#[test]
fn test_tracker_state_peer_management() {
    let mut state = TrackerState::new();
    let info_hash = b"infohash1";
    let peer_id = "peer1".to_string();
    let ip = IpAddress::V4(0x7f000001);
    state.announce(info_hash, peer_id.clone(), ip, 6881, 0);
    {
        let swarm =
            &state.torrents.iter().find(|(k, _)| k == info_hash).expect("Swarm should exist").1;
        assert_eq!(swarm.len(), 1);
        assert_eq!(swarm[0].id, peer_id);
    }
    state.announce(info_hash, peer_id.clone(), ip, 6882, 1);
    {
        let swarm = &state.torrents.iter().find(|(k, _)| k == info_hash).unwrap().1;
        assert_eq!(swarm.len(), 1);
        assert_eq!(swarm[0].port, 6882);
    }
}

#[test]
fn the_tracker_remembers_peers_for_an_hour() {
    let hour: u128 = 3_600_000_000_000;
    let mut state = TrackerState::new();
    let out = state.announce(b"h", "a".to_string(), IpAddress::V4(1), 1, 0);
    assert_eq!(out, vec![PeerAddr { ip: 1, port: 1 }]);
    let out = state.announce(b"h", "b".to_string(), IpAddress::V6(2), 2, 10);
    assert_eq!(out, vec![PeerAddr { ip: 1, port: 1 }]);
    let out = state.announce(b"h", "c".to_string(), IpAddress::V4(3), 3, hour - 1);
    assert_eq!(out, vec![PeerAddr { ip: 1, port: 1 }, PeerAddr { ip: 3, port: 3 }]);
    assert_eq!(state.torrents[0].1.len(), 3);
    // At the hour the first peer is forgotten; the second a little later.
    let out = state.announce(b"h", "c".to_string(), IpAddress::V4(4), 4, hour);
    assert_eq!(out, vec![PeerAddr { ip: 4, port: 4 }]);
    assert_eq!(state.torrents[0].1.len(), 2);
    assert_eq!(state.torrents[0].1[0].id, "b");
    assert_eq!(state.torrents[0].1[1].last_seen, hour);
    let out = state.announce(b"other", "z".to_string(), IpAddress::V4(9), 9, hour + 10);
    assert_eq!(out, vec![PeerAddr { ip: 9, port: 9 }]);
    assert_eq!(state.torrents.len(), 2);
    assert_eq!(state.torrents[0].1.len(), 2);
    state.announce(b"h", "d".to_string(), IpAddress::V4(5), 5, hour + 10);
    assert_eq!(state.torrents.len(), 2);
    assert_eq!(state.torrents[0].0, b"h".to_vec());
    let ids: Vec<&str> = state.torrents[0].1.iter().map(|p| p.id.as_str()).collect();
    assert_eq!(ids, vec!["c", "d"]);
    // A clock that goes back forgets nobody.
    state.announce(b"h", "e".to_string(), IpAddress::V4(6), 6, 0);
    assert_eq!(state.torrents[0].1.len(), 3);
}

#[test]
fn an_answer_names_at_most_fifty_peers() {
    let mut state = TrackerState::new();
    let mut out = Vec::new();
    for i in 0..60u32 {
        out = state.announce(b"h", format!("peer{}", i), IpAddress::V4(i), 1, 5);
    }
    assert_eq!(state.torrents[0].1.len(), 60);
    assert_eq!(out.len(), 50);
    assert_eq!(out[0], PeerAddr { ip: 0, port: 1 });
    assert_eq!(out[49], PeerAddr { ip: 49, port: 1 });
}

#[test]
fn the_answer_to_an_announce() {
    let peers = vec![PeerAddr { ip: 0x41424344, port: 0x4546 }];
    assert_eq!(
        text(&announce_response(&peers)),
        "HTTP/1.1 200 OK\r\nContent-Type: text/plain\r\nContent-Length: 33\r\n\r\nd8:intervali1800e5:peers6:ABCDEFe"
    );
    assert_eq!(
        text(&announce_response(&vec![])),
        "HTTP/1.1 200 OK\r\nContent-Type: text/plain\r\nContent-Length: 27\r\n\r\nd8:intervali1800e5:peers0:e"
    );
}

#[test]
fn a_new_tracker() {
    let server = TrackerServer::new(6969);
    assert_eq!(server.port, 6969);
    assert!(!server.running);
    assert!(server.state.torrents.is_empty());
}

#[test]
fn the_tracker_answers_requests() {
    let mut server = TrackerServer::new(6969);
    let ip = IpAddress::V4(0x0a000001);
    assert!(server.handle_request(b"POST /announce HTTP/1.1\r\n", ip, 0).is_none());
    assert!(server.handle_request(b"", ip, 0).is_none());
    assert_eq!(
        text(&server.handle_request(b"GET /scrape HTTP/1.1\r\n", ip, 0).unwrap()),
        "HTTP/1.1 404 Not Found\r\nConnection: close\r\n\r\n"
    );
    assert_eq!(
        text(&server.handle_request(b"GET /announce?port=1 HTTP/1.1\r\n", ip, 0).unwrap()),
        "HTTP/1.1 400 Bad Request\r\n\r\nMissing info_hash"
    );
    assert!(server.state.torrents.is_empty());
    let answer = server
        .handle_request(b"GET /announce?info_hash=h&peer_id=a&port=16706 HTTP/1.1\r\n", ip, 5)
        .unwrap();
    assert_eq!(
        answer,
        b"HTTP/1.1 200 OK\r\nContent-Type: text/plain\r\nContent-Length: 33\r\n\r\nd8:intervali1800e5:peers6:\n\x00\x00\x01ABe"
            .to_vec()
    );
    assert_eq!(server.state.torrents.len(), 1);
    assert_eq!(server.state.torrents[0].0, b"h".to_vec());
    assert_eq!(server.state.torrents[0].1[0].id, "a");
    assert_eq!(server.state.torrents[0].1[0].last_seen, 5);
    let answer = server
        .handle_request(b"GET /announce?info_hash=h&peer_id=b HTTP/1.1\r\n", IpAddress::V6(1), 6)
        .unwrap();
    assert_eq!(answer.len(), 65 + 33);
    assert_eq!(server.state.torrents[0].1.len(), 2);
    assert_eq!(server.state.torrents[0].1[1].port, 0);
    assert_eq!(
        text(&rate_limited_response()),
        "HTTP/1.1 429 Too Many Requests\r\nConnection: close\r\n\r\nRate limit exceeded"
    );
}

#[test]
fn values_of_a_query_as_bytes() {
    assert_eq!(hex_digit(b'0'), Some(0));
    assert_eq!(hex_digit(b'9'), Some(9));
    assert_eq!(hex_digit(b'a'), Some(10));
    assert_eq!(hex_digit(b'F'), Some(15));
    assert_eq!(hex_digit(b'g'), None);
    assert_eq!(hex_digit(b'/'), None);
    assert_eq!(form_decode(b"abc"), b"abc".to_vec());
    assert_eq!(form_decode(b"a+b%20c"), b"a b c".to_vec());
    assert_eq!(form_decode(b"%ff%FE%00%2B"), vec![0xff, 0xfe, 0x00, b'+']);
    assert_eq!(form_decode(b"100%"), b"100%".to_vec());
    assert_eq!(form_decode(b"%4"), b"%4".to_vec());
    assert_eq!(form_decode(b"%zz%41"), b"%zzA".to_vec());
    assert_eq!(form_decode(b"%%41"), b"%A".to_vec());
    assert_eq!(form_decode(b""), Vec::<u8>::new());
    assert_eq!(raw_value(b"a=1&b=2", b"b"), Some(b"2".to_vec()));
    assert_eq!(raw_value(b"a=1&b=2&a=3", b"a"), Some(b"3".to_vec()));
    assert_eq!(raw_value(b"a=1&b=2", b"c"), None);
    assert_eq!(raw_value(b"", b"a"), None);
    assert_eq!(raw_value(b"&&a&&", b"a"), Some(Vec::new()));
    assert_eq!(raw_value(b"a=", b"a"), Some(Vec::new()));
    assert_eq!(raw_value(b"a=b=c", b"a"), Some(b"b=c".to_vec()));
    assert_eq!(raw_value(b"%61=%ff", b"a"), Some(vec![0xff]));
    assert_eq!(raw_value(b"=x", b""), Some(b"x".to_vec()));
    assert_eq!(raw_value(b"ab=1", b"a"), None);
    assert_eq!(raw_value(b"x=1&info_hash=%12%34+", b"info_hash"), Some(vec![0x12, 0x34, b' ']));
}

#[test]
fn requests_are_routed_by_their_words() {
    let words = |w: &[&str]| w.iter().map(|s| s.to_string()).collect::<Vec<String>>();
    assert!(matches!(route_words(words(&[])), Route::Ignore));
    assert!(matches!(route_words(words(&["GET"])), Route::Ignore));
    assert!(matches!(route_words(words(&["PUT", "/announce"])), Route::Ignore));
    assert!(matches!(route_words(words(&["GET", "/"])), Route::NotFound));
    match route_words(words(&["GET", "/announce?a=1", "HTTP/1.1"])) {
        Route::Announce(path) => assert_eq!(path, "/announce?a=1"),
        _ => panic!("no announce"),
    }
}

#[test]
fn an_announce_from_the_parts_of_its_url() {
    let url = |query: Vec<(&str, &str)>, raw: Option<&str>| ParsedUrl {
        scheme: "http".to_string(),
        host: Some("localhost".to_string()),
        port: None,
        query: query.into_iter().map(|(k, v)| (k.to_string(), v.to_string())).collect(),
        raw_query: raw.map(|q| q.to_string()),
    };
    let p = announce_from_parts(&url(
        vec![("info_hash", "\u{fffd}"), ("port", "6881"), ("peer_id", "p")],
        Some("info_hash=%ff&port=6881&peer_id=p"),
    ))
    .unwrap();
    assert_eq!(p.info_hash, vec![0xff]);
    assert_eq!(p.port, 6881);
    assert_eq!(p.peer_id, "p");
    assert_eq!(
        announce_from_parts(&url(vec![("port", "1")], Some("port=1"))).unwrap_err(),
        AnnounceError::MissingInfoHash
    );
    assert_eq!(
        announce_from_parts(&url(vec![], None)).unwrap_err(),
        AnnounceError::MissingInfoHash
    );
}

#[test]
fn info_hashes_that_are_no_text_do_not_fall_together() {
    let a = parse_announce("/announce?info_hash=%ff%00%fe&peer_id=a").unwrap();
    let b = parse_announce("/announce?info_hash=%fe%00%ff&peer_id=b").unwrap();
    assert_eq!(a.info_hash, vec![0xff, 0x00, 0xfe]);
    assert_eq!(b.info_hash, vec![0xfe, 0x00, 0xff]);
    let full = "/announce?info_hash=%12%34%56%78%9a%bc%de%f0%12%34%56%78%9a%bc%de%f0%12%34%56%78";
    assert_eq!(
        parse_announce(full).unwrap().info_hash,
        vec![
            0x12, 0x34, 0x56, 0x78, 0x9a, 0xbc, 0xde, 0xf0, 0x12, 0x34, 0x56, 0x78, 0x9a, 0xbc,
            0xde, 0xf0, 0x12, 0x34, 0x56, 0x78
        ]
    );
    let mut server = TrackerServer::new(1);
    let ip = IpAddress::V4(1);
    server.handle_request(b"GET /announce?info_hash=%ff%00%fe&peer_id=a HTTP/1.1\r\n", ip, 0);
    server.handle_request(b"GET /announce?info_hash=%fe%00%ff&peer_id=b HTTP/1.1\r\n", ip, 0);
    server.handle_request(b"GET /announce?info_hash=%FF%00%FE&peer_id=c HTTP/1.1\r\n", ip, 0);
    assert_eq!(server.state.torrents.len(), 2);
    assert_eq!(server.state.torrents[0].0, vec![0xff, 0x00, 0xfe]);
    assert_eq!(server.state.torrents[0].1.len(), 2);
    assert_eq!(server.state.torrents[1].0, vec![0xfe, 0x00, 0xff]);
}
