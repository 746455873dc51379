use tds::bencoding::bencode::insert_entry;
use tds::bencoding::{decode, Bencode};
use tds::dht::{bootstrap_routers, make_ping_response, Dht, Node};
use tds::peer_addr::PeerAddr;

fn dict(pairs: Vec<(&str, Bencode)>) -> Bencode {
    let mut entries = Vec::new();
    for (k, v) in pairs {
        insert_entry(&mut entries, k.as_bytes().to_vec(), v);
    }
    Bencode::Dict(entries)
}

fn bytes(s: &[u8]) -> Bencode {
    Bencode::Bytes(s.to_vec())
}

fn node() -> Dht {
    Dht { node_id: [0x11; 20], nodes: Vec::new(), peers: Vec::new() }
}

fn text(s: &[u8]) -> String {
    String::from_utf8_lossy(s).to_string()
}

#[test]
fn test_parse_nodes() {
    let mut data = vec![1u8; 20];
    data.extend_from_slice(&[127, 0, 0, 1]);
    data.extend_from_slice(&8080u16.to_be_bytes());
    let mut dht = node();
    dht.parse_nodes(&data);
    assert_eq!(dht.nodes.len(), 1);
    assert_eq!(dht.nodes[0].id, [1u8; 20]);
    assert_eq!(dht.nodes[0].addr.octets(), [127, 0, 0, 1]);
    assert_eq!(dht.nodes[0].addr.port, 8080);
}

#[test]
fn test_parse_peers() {
    let data = vec![1, 1, 1, 1, 0x1B, 0x39];
    let list = vec![Bencode::Bytes(data)];
    let mut dht = node();
    dht.parse_peers(&list);
    assert_eq!(dht.peers.len(), 1);
    assert_eq!(dht.peers[0], PeerAddr { ip: 0x01010101, port: 6969 });
}

#[test]
fn a_node_is_taken_up_once_for_each_endpoint() {
    let mut data = Vec::new();
    for (id, last) in [(1u8, 1u8), (2, 2), (3, 1)] {
        data.extend_from_slice(&[id; 20]);
        data.extend_from_slice(&[10, 0, 0, last, 0x1a, 0xe1]);
    }
    data.extend_from_slice(&[9; 25]);
    let mut dht = node();
    dht.parse_nodes(&data);
    assert_eq!(dht.nodes.len(), 2);
    assert_eq!(dht.nodes[0].id, [1u8; 20]);
    assert_eq!(dht.nodes[1].id, [2u8; 20]);
    assert_eq!(dht.nodes[1].addr, PeerAddr { ip: 0x0a000002, port: 6881 });
    dht.parse_nodes(&data);
    assert_eq!(dht.nodes.len(), 2);
    dht.parse_nodes(&[]);
    assert_eq!(dht.nodes.len(), 2);
}

#[test]
fn a_peer_is_taken_up_once_and_found_peers_are_handed_out_once() {
    let mut dht = node();
    dht.parse_peers(&vec![
        bytes(&[1, 1, 1, 1, 0, 80]),
        bytes(&[1, 1, 1, 1, 0, 80]),
        bytes(&[1, 1, 1, 1, 0]),
        Bencode::Int(1),
        bytes(&[2, 2, 2, 2, 0, 81]),
    ]);
    assert_eq!(
        dht.peers,
        vec![PeerAddr { ip: 0x01010101, port: 80 }, PeerAddr { ip: 0x02020202, port: 81 }]
    );
    let found = dht.get_found_peers();
    assert_eq!(found.len(), 2);
    assert!(dht.peers.is_empty());
    assert!(dht.get_found_peers().is_empty());
}

#[test]
fn queries_are_encoded_dictionaries() {
    let dht = node();
    let q = dht.find_node(b"ab", &[0x22; 20]);
    assert_eq!(
        text(&q),
        format!(
            "d1:ad2:id20:{}6:target20:{}e1:q9:find_node1:t2:ab1:y1:qe",
            text(&[0x11; 20]),
            text(&[0x22; 20])
        )
    );
    let q = dht.send_get_peers(b"xy", &[0x33; 20]);
    assert_eq!(
        text(&q),
        format!(
            "d1:ad2:id20:{}9:info_hash20:{}e1:q9:get_peers1:t2:xy1:y1:qe",
            text(&[0x11; 20]),
            text(&[0x33; 20])
        )
    );
    let r = make_ping_response(b"tt", &[0x11; 20]);
    assert_eq!(text(&r), format!("d1:rd2:id20:{}e1:t2:tt1:y1:re", text(&[0x11; 20])));
}

#[test]
fn every_known_node_is_asked_for_peers() {
    let mut rng = rand::rng();
    let mut dht = node();
    assert!(dht.get_peers(&[5; 20], &mut rng).is_empty());
    dht.nodes.push(Node { id: [1; 20], addr: PeerAddr { ip: 1, port: 1 } });
    dht.nodes.push(Node { id: [2; 20], addr: PeerAddr { ip: 2, port: 2 } });
    let mut ids = Vec::new();
    for _ in 0..20 {
        let out = dht.get_peers(&[5; 20], &mut rng);
        assert_eq!(out.len(), 2);
        assert_eq!(out[0].0, PeerAddr { ip: 1, port: 1 });
        assert_eq!(out[1].0, PeerAddr { ip: 2, port: 2 });
        for (_, q) in out {
            let mut pos = 0;
            let msg = decode(&q, &mut pos).unwrap();
            assert_eq!(pos, q.len());
            match msg.get(b"t") {
                Some(Bencode::Bytes(t)) => {
                    assert_eq!(t.len(), 2);
                    ids.push(t.clone());
                    assert_eq!(q, dht.send_get_peers(t, &[5; 20]));
                }
                _ => panic!("no transaction id"),
            }
        }
    }
    ids.sort();
    ids.dedup();
    assert!(ids.len() > 1);
}

#[test]
fn a_node_with_a_given_id() {
    let dht = Dht::with_id([0x42; 20]);
    assert_eq!(dht.node_id, [0x42; 20]);
    assert!(dht.nodes.is_empty() && dht.peers.is_empty());
    let q = dht.find_node(b"ab", &[0x42; 20]);
    assert_eq!(q, Dht { node_id: [0x42; 20], nodes: vec![], peers: vec![] }.find_node(b"ab", &[0x42; 20]));
}

#[test]
fn a_new_node_has_a_random_id() {
    let mut rng = rand::rng();
    let a = Dht::new(&mut rng);
    let b = Dht::new(&mut rng);
    assert!(a.nodes.is_empty() && a.peers.is_empty());
    assert_ne!(a.node_id, b.node_id);
}

#[test]
fn a_response_adds_nodes_and_peers() {
    let mut nodes = vec![7u8; 20];
    nodes.extend_from_slice(&[10, 0, 0, 7, 0, 7]);
    let msg = dict(vec![
        ("t", bytes(b"aa")),
        ("y", bytes(b"r")),
        (
            "r",
            dict(vec![
                ("id", bytes(&[9; 20])),
                ("nodes", Bencode::Bytes(nodes)),
                ("values", Bencode::List(vec![bytes(&[3, 3, 3, 3, 0, 3])])),
            ]),
        ),
    ]);
    let mut dht = node();
    assert!(dht.handle_message(&msg).is_none());
    assert_eq!(dht.nodes.len(), 1);
    assert_eq!(dht.nodes[0].addr, PeerAddr { ip: 0x0a000007, port: 7 });
    assert_eq!(dht.peers, vec![PeerAddr { ip: 0x03030303, port: 3 }]);
}

#[test]
fn a_ping_is_answered() {
    let mut dht = node();
    let ping = dict(vec![
        ("t", bytes(b"pp")),
        ("y", bytes(b"q")),
        ("q", bytes(b"ping")),
        ("a", dict(vec![("id", bytes(&[9; 20]))])),
    ]);
    assert_eq!(dht.handle_message(&ping), Some(make_ping_response(b"pp", &[0x11; 20])));
    let other = dict(vec![("t", bytes(b"pp")), ("y", bytes(b"q")), ("q", bytes(b"find_node"))]);
    assert!(dht.handle_message(&other).is_none());
    assert!(dht.nodes.is_empty() && dht.peers.is_empty());
}

#[test]
fn messages_of_another_form_do_nothing() {
    let mut dht = node();
    for msg in [
        Bencode::Int(1),
        dict(vec![]),
        dict(vec![("y", bytes(b"q")), ("q", bytes(b"ping"))]),
        dict(vec![("t", bytes(b"aa")), ("q", bytes(b"ping"))]),
        dict(vec![("t", Bencode::Int(1)), ("y", bytes(b"q")), ("q", bytes(b"ping"))]),
        dict(vec![("t", bytes(b"aa")), ("y", bytes(b"e"))]),
        dict(vec![("t", bytes(b"aa")), ("y", bytes(b"q"))]),
        dict(vec![("t", bytes(b"aa")), ("y", bytes(b"r"))]),
        dict(vec![("t", bytes(b"aa")), ("y", bytes(b"r")), ("r", bytes(b"x"))]),
        dict(vec![
            ("t", bytes(b"aa")),
            ("y", bytes(b"r")),
            ("r", dict(vec![("nodes", Bencode::Int(1)), ("values", bytes(b"abcdef"))])),
        ]),
    ] {
        assert!(dht.handle_message(&msg).is_none());
    }
    assert!(dht.nodes.is_empty() && dht.peers.is_empty());
}

#[test]
fn the_routers_of_the_hash_table() {
    assert_eq!(
        bootstrap_routers(),
        ["router.bittorrent.com:6881", "dht.transmissionbt.com:6881", "router.utorrent.com:6881"]
    );
}
