use tds::peer::bitfield::{set_bit, test_bit};
use tds::peer::{Message, PeerConnection, WireError};

fn connection() -> PeerConnection {
    let mut reply = PeerConnection::handshake(&[7u8; 20], &[9u8; 20]);
    for b in reply[48..68].iter_mut() {
        *b = 3;
    }
    PeerConnection::connect(&reply, &[7u8; 20]).unwrap()
}

fn same(a: &Message, b: &Message) -> bool {
    format!("{:?}", a) == format!("{:?}", b)
}

#[test]
fn test_bitfield_logic() {
    let bitfield = vec![0b10000000u8, 0b00000001];
    assert!(test_bit(&bitfield, 0));
    assert!(!test_bit(&bitfield, 1));
    assert!(test_bit(&bitfield, 15));
    assert!(!test_bit(&bitfield, 16));
}

#[test]
fn bit_zero_is_the_most_significant_bit_of_the_first_byte() {
    let mut bits = Vec::new();
    set_bit(&mut bits, 0);
    assert_eq!(bits, vec![0x80]);
    let mut bits = Vec::new();
    set_bit(&mut bits, 7);
    assert_eq!(bits, vec![0x01]);
    let mut bits = vec![0x80];
    set_bit(&mut bits, 9);
    assert_eq!(bits, vec![0x80, 0x40]);
    let mut bits = Vec::new();
    set_bit(&mut bits, 17);
    assert_eq!(bits, vec![0, 0, 0x40]);
}

#[test]
fn has_piece_reads_the_bitfield() {
    let mut conn = connection();
    assert!(!conn.has_piece(0));
    conn.bitfield = vec![0b10000000, 0b00000001];
    assert!(conn.has_piece(0));
    assert!(!conn.has_piece(1));
    assert!(conn.has_piece(15));
    assert!(!conn.has_piece(16));
    assert!(!conn.has_piece(u32::MAX));
}

#[test]
fn handshake_bytes() {
    let hs = PeerConnection::handshake(&[0xaa; 20], &[0xbb; 20]);
    assert_eq!(hs.len(), 68);
    assert_eq!(hs[0], 19);
    assert_eq!(&hs[1..20], b"BitTorrent protocol");
    assert_eq!(&hs[20..28], &[0, 0, 0, 0, 0, 0x10, 0, 0]);
    assert_eq!(&hs[28..48], &[0xaa; 20]);
    assert_eq!(&hs[48..68], &[0xbb; 20]);
}

#[test]
fn handshake_reply_is_accepted() {
    let hash = [0x5bu8; 20];
    let mut reply = PeerConnection::handshake(&hash, &[0u8; 20]);
    for (i, b) in reply[48..68].iter_mut().enumerate() {
        *b = i as u8 + 1;
    }
    let conn = PeerConnection::connect(&reply, &hash).unwrap();
    assert!(conn.peer_choking);
    assert!(!conn.peer_interested);
    assert!(conn.am_choking);
    assert!(!conn.am_interested);
    assert!(conn.bitfield.is_empty());
    assert_eq!(&conn.peer_id[..], &reply[48..68]);
}

#[test]
fn handshake_reply_is_refused() {
    let hash = [0x5bu8; 20];
    let good = PeerConnection::handshake(&hash, &[1u8; 20]);
    let other = PeerConnection::handshake(&[0x5cu8; 20], &[1u8; 20]);
    assert_eq!(
        PeerConnection::connect(&other, &hash).unwrap_err(),
        WireError::FingerprintMismatch
    );
    let mut bad = good.clone();
    bad[0] = 18;
    assert_eq!(PeerConnection::connect(&bad, &hash).unwrap_err(), WireError::HandshakeInvalid);
    let mut bad = good.clone();
    bad[5] = b'X';
    assert_eq!(PeerConnection::connect(&bad, &hash).unwrap_err(), WireError::HandshakeInvalid);
    assert_eq!(
        PeerConnection::connect(&good[..67], &hash).unwrap_err(),
        WireError::HandshakeInvalid
    );
    let mut long = good.clone();
    long.push(0);
    assert_eq!(PeerConnection::connect(&long, &hash).unwrap_err(), WireError::HandshakeInvalid);
    assert_eq!(PeerConnection::connect(&[], &hash).unwrap_err(), WireError::HandshakeInvalid);
}

#[test]
fn frames_of_each_message() {
    assert_eq!(Message::KeepAlive.encode().unwrap(), vec![0, 0, 0, 0]);
    assert_eq!(Message::Choke.encode().unwrap(), vec![0, 0, 0, 1, 0]);
    assert_eq!(Message::Unchoke.encode().unwrap(), vec![0, 0, 0, 1, 1]);
    assert_eq!(Message::Interested.encode().unwrap(), vec![0, 0, 0, 1, 2]);
    assert_eq!(Message::NotInterested.encode().unwrap(), vec![0, 0, 0, 1, 3]);
    assert_eq!(
        Message::Have(0x01020304).encode().unwrap(),
        vec![0, 0, 0, 5, 4, 1, 2, 3, 4]
    );
    assert_eq!(
        Message::Bitfield(vec![0x80, 0x01]).encode().unwrap(),
        vec![0, 0, 0, 3, 5, 0x80, 0x01]
    );
    assert_eq!(
        Message::Request { index: 1, begin: 16384, length: 16384 }.encode().unwrap(),
        vec![0, 0, 0, 13, 6, 0, 0, 0, 1, 0, 0, 0x40, 0, 0, 0, 0x40, 0]
    );
    assert_eq!(
        Message::Piece { index: 2, begin: 3, block: vec![9, 8] }.encode().unwrap(),
        vec![0, 0, 0, 11, 7, 0, 0, 0, 2, 0, 0, 0, 3, 9, 8]
    );
    assert_eq!(
        Message::Cancel { index: 1, begin: 2, length: 3 }.encode().unwrap(),
        vec![0, 0, 0, 13, 8, 0, 0, 0, 1, 0, 0, 0, 2, 0, 0, 0, 3]
    );
    assert_eq!(
        Message::Extended { id: 1, payload: vec![b'd', b'e'] }.encode().unwrap(),
        vec![0, 0, 0, 4, 20, 1, b'd', b'e']
    );
}

#[test]
fn decoding_gives_back_every_message() {
    let messages = vec![
        Message::KeepAlive,
        Message::Choke,
        Message::Unchoke,
        Message::Interested,
        Message::NotInterested,
        Message::Have(u32::MAX),
        Message::Bitfield(vec![]),
        Message::Bitfield(vec![1, 2, 3]),
        Message::Request { index: 0, begin: 0, length: 131072 },
        Message::Piece { index: 7, begin: 16384, block: vec![] },
        Message::Piece { index: 7, begin: 16384, block: vec![5; 100] },
        Message::Cancel { index: u32::MAX, begin: 1, length: 2 },
        Message::Extended { id: 0, payload: vec![] },
        Message::Extended { id: 255, payload: b"d1:md6:ut_pexi1eee".to_vec() },
    ];
    for m in messages {
        let frame = m.encode().unwrap();
        let (back, used) = Message::decode(&frame).unwrap();
        assert_eq!(used, frame.len());
        assert!(same(&back, &m));
        let mut longer = frame.clone();
        longer.extend_from_slice(&[0xff, 0xff, 0xff]);
        let (back, used) = Message::decode(&longer).unwrap();
        assert_eq!(used, frame.len());
        assert!(same(&back, &m));
        assert_eq!(back.encode().unwrap(), frame);
    }
}

#[test]
fn encoding_gives_back_every_well_formed_frame() {
    let frames: Vec<Vec<u8>> = vec![
        vec![0, 0, 0, 0],
        vec![0, 0, 0, 1, 2],
        vec![0, 0, 0, 5, 4, 0xde, 0xad, 0xbe, 0xef],
        vec![0, 0, 0, 1, 5],
        vec![0, 0, 0, 9, 7, 1, 2, 3, 4, 5, 6, 7, 8],
        vec![0, 0, 0, 2, 20, 3],
    ];
    for f in frames {
        let (m, used) = Message::decode(&f).unwrap();
        assert_eq!(used, f.len());
        assert_eq!(m.encode().unwrap(), f);
    }
}

#[test]
fn frames_that_are_refused() {
    assert_eq!(Message::decode(&[]).unwrap_err(), WireError::Truncated);
    assert_eq!(Message::decode(&[0, 0, 0]).unwrap_err(), WireError::Truncated);
    assert_eq!(Message::decode(&[0, 0, 0, 1]).unwrap_err(), WireError::Truncated);
    assert_eq!(Message::decode(&[0, 0, 0, 5, 4, 0, 0]).unwrap_err(), WireError::Truncated);
    assert_eq!(Message::decode(&[0, 0, 0, 2, 0, 0]).unwrap_err(), WireError::Malformed);
    assert_eq!(Message::decode(&[0, 0, 0, 2, 3, 0]).unwrap_err(), WireError::Malformed);
    assert_eq!(Message::decode(&[0, 0, 0, 4, 4, 0, 0, 0]).unwrap_err(), WireError::Malformed);
    assert_eq!(
        Message::decode(&[0, 0, 0, 12, 6, 0, 0, 0, 0, 0, 0, 0, 0, 0, 0, 0]).unwrap_err(),
        WireError::Malformed
    );
    assert_eq!(
        Message::decode(&[0, 0, 0, 8, 7, 0, 0, 0, 0, 0, 0, 0]).unwrap_err(),
        WireError::Malformed
    );
    assert_eq!(
        Message::decode(&[0, 0, 0, 14, 8, 0, 0, 0, 0, 0, 0, 0, 0, 0, 0, 0, 0, 0]).unwrap_err(),
        WireError::Malformed
    );
    assert_eq!(Message::decode(&[0, 0, 0, 1, 20]).unwrap_err(), WireError::Malformed);
    assert_eq!(Message::decode(&[0, 0, 0, 1, 9]).unwrap_err(), WireError::UnknownMessage(9));
    assert_eq!(
        Message::decode(&[0, 0, 0, 3, 21, 1, 2]).unwrap_err(),
        WireError::UnknownMessage(21)
    );
}

#[test]
fn send_message_frames_the_message() {
    let conn = connection();
    assert_eq!(
        conn.send_message(&Message::Have(3)).unwrap(),
        vec![0, 0, 0, 5, 4, 0, 0, 0, 3]
    );
    assert_eq!(conn.send_message(&Message::Interested).unwrap(), vec![0, 0, 0, 1, 2]);
}

#[test]
fn read_message_records_choke_and_interest() {
    let mut conn = connection();
    let (m, n) = conn.read_message(&[0, 0, 0, 1, 1]).unwrap();
    assert!(matches!(m, Message::Unchoke));
    assert_eq!(n, 5);
    assert!(!conn.peer_choking);
    conn.read_message(&[0, 0, 0, 1, 2]).unwrap();
    assert!(conn.peer_interested);
    conn.read_message(&[0, 0, 0, 1, 3]).unwrap();
    assert!(!conn.peer_interested);
    conn.read_message(&[0, 0, 0, 1, 0]).unwrap();
    assert!(conn.peer_choking);
    assert!(conn.am_choking);
    assert!(!conn.am_interested);
    assert_eq!(conn.peer_id, [3u8; 20]);
}

#[test]
fn read_message_records_pieces() {
    let mut conn = connection();
    conn.read_message(&[0, 0, 0, 5, 4, 0, 0, 0, 10]).unwrap();
    assert_eq!(conn.bitfield, vec![0, 0x20]);
    assert!(conn.has_piece(10));
    conn.read_message(&[0, 0, 0, 5, 4, 0, 0, 0, 0]).unwrap();
    assert_eq!(conn.bitfield, vec![0x80, 0x20]);
    conn.read_message(&[0, 0, 0, 4, 5, 0xff, 0x00, 0x0f]).unwrap();
    assert_eq!(conn.bitfield, vec![0xff, 0x00, 0x0f]);
    assert!(!conn.has_piece(10));
    conn.read_message(&[0, 0, 0, 0]).unwrap();
    assert_eq!(conn.bitfield, vec![0xff, 0x00, 0x0f]);
}

#[test]
fn read_message_leaves_the_connection_on_an_error() {
    let mut conn = connection();
    conn.bitfield = vec![1];
    assert_eq!(conn.read_message(&[0, 0, 0, 1, 99]).unwrap_err(), WireError::UnknownMessage(99));
    assert_eq!(conn.read_message(&[0, 0]).unwrap_err(), WireError::Truncated);
    assert_eq!(conn.bitfield, vec![1]);
    assert!(conn.peer_choking);
}
