use tds::bencoding::bencode::insert_entry;
use tds::bencoding::{info_hash, Bencode};
use tds::magnet::{magnet_from_parts, parse_magnet_link, wrap_info, MagnetError};
use tds::metadata::{metadata_request, MetadataError, MetadataFetch};
use tds::parse_torrent;
use tds::peer::extension::{
    extension_handshake, parse_extension_handshake, wrap_u16, wrap_u32, wrap_u8, ExtensionInfo,
};
use tds::peer::Message;
use tds::url_parts::ParsedUrl;

#[test]
fn test_parse_magnet_link_valid_hex() {
    let uri = "magnet:?xt=urn:btih:5b635ca35e4d2847a83709033333333333333333&tr=http://tracker.com";
    let res = parse_magnet_link(uri);
    assert!(res.is_ok());
    let (hash, trackers) = res.unwrap();
    assert_eq!(hex::encode(hash), "5b635ca35e4d2847a83709033333333333333333");
    assert_eq!(trackers.len(), 1);
    assert_eq!(trackers[0], "http://tracker.com");
}

#[test]
fn test_parse_magnet_link_multiple_trackers() {
    let uri = "magnet:?xt=urn:btih:5b635ca35e4d2847a83709033333333333333333&tr=http://t1.com&tr=http://t2.com";
    let res = parse_magnet_link(uri);
    assert!(res.is_ok());
    let (_, trackers) = res.unwrap();
    assert_eq!(trackers.len(), 2);
    assert_eq!(trackers[0], "http://t1.com");
    assert_eq!(trackers[1], "http://t2.com");
}

#[test]
fn test_parse_magnet_link_invalid_scheme() {
    assert!(parse_magnet_link("http://google.com").is_err());
}

#[test]
fn test_parse_magnet_link_missing_xt() {
    assert!(parse_magnet_link("magnet:?tr=http://tracker.com").is_err());
}

#[test]
fn test_parse_magnet_link_invalid_hex_len() {
    // Too short
    let uri = "magnet:?xt=urn:btih:12345&tr=http://tracker.com";
    assert!(parse_magnet_link(uri).is_ok() == false);
    match parse_magnet_link(uri) {
        Err(e) => assert_eq!(e.message().to_string(), "Missing info hash"),
        Ok(_) => panic!("Should have failed"),
    }
}

#[test]
fn magnet_link_gives_the_bytes_of_the_hash() {
    let uri = "magnet:?xt=urn:btih:5b635ca35e4d2847a83709033333333333333333&tr=http://t1.com&tr=http://t2.com";
    let (hash, trackers) = parse_magnet_link(uri).unwrap();
    assert_eq!(
        hash,
        [
            0x5b, 0x63, 0x5c, 0xa3, 0x5e, 0x4d, 0x28, 0x47, 0xa8, 0x37, 0x09, 0x03, 0x33, 0x33,
            0x33, 0x33, 0x33, 0x33, 0x33, 0x33
        ]
    );
    assert_eq!(trackers, vec!["http://t1.com".to_string(), "http://t2.com".to_string()]);
    let upper = "magnet:?xt=urn:btih:5B635CA35E4D2847A83709033333333333333333";
    assert_eq!(parse_magnet_link(upper).unwrap().0, hash);
    assert!(parse_magnet_link(upper).unwrap().1.is_empty());
}

#[test]
fn magnet_link_errors() {
    assert_eq!(parse_magnet_link("not a url").unwrap_err(), MagnetError::InvalidUrl);
    assert_eq!(parse_magnet_link("").unwrap_err(), MagnetError::InvalidUrl);
    assert_eq!(parse_magnet_link("http://google.com").unwrap_err(), MagnetError::NotMagnet);
    assert_eq!(
        parse_magnet_link("magnet:?tr=http://tracker.com").unwrap_err(),
        MagnetError::MissingInfoHash
    );
    assert_eq!(
        parse_magnet_link("magnet:?xt=urn:btih:LNRVZI26JUUEPKBXBEBTGMZTGMZTGMZT").unwrap_err(),
        MagnetError::UnsupportedHashEncoding
    );
    assert_eq!(
        parse_magnet_link("magnet:?xt=urn:btih:zz635ca35e4d2847a83709033333333333333333")
            .unwrap_err(),
        MagnetError::InvalidHex
    );
    assert_eq!(
        parse_magnet_link("magnet:?xt=urn:sha1:5b635ca35e4d2847a83709033333333333333333")
            .unwrap_err(),
        MagnetError::MissingInfoHash
    );
    assert_eq!(
        parse_magnet_link("magnet:?xt=urn:btih:5b635ca35e4d2847a8370903333333333333333")
            .unwrap_err(),
        MagnetError::MissingInfoHash
    );
}

#[test]
fn magnet_error_messages() {
    assert_eq!(MagnetError::InvalidUrl.message(), "Invalid URL");
    assert_eq!(MagnetError::NotMagnet.message(), "Not a magnet link");
    assert_eq!(MagnetError::InvalidHex.message(), "Invalid hex hash");
    assert_eq!(
        MagnetError::UnsupportedHashEncoding.message(),
        "Base32 magnet links not yet supported"
    );
    assert_eq!(MagnetError::MissingInfoHash.message(), "Missing info hash");
}

#[test]
fn the_last_info_hash_counts_and_an_error_ends_the_reading() {
    let uri = "magnet:?xt=urn:btih:0000000000000000000000000000000000000000&xt=urn:btih:ffffffffffffffffffffffffffffffffffffffff";
    assert_eq!(parse_magnet_link(uri).unwrap().0, [0xff; 20]);
    let uri = "magnet:?xt=urn:btih:0000000000000000000000000000000000000000&xt=urn:btih:LNRVZI26JUUEPKBXBEBTGMZTGMZTGMZT";
    assert_eq!(parse_magnet_link(uri).unwrap_err(), MagnetError::UnsupportedHashEncoding);
}

#[test]
fn magnet_from_the_parts_of_a_url() {
    let url = ParsedUrl {
        scheme: "magnet".to_string(),
        host: None,
        port: None,
        query: vec![
            ("dn".to_string(), "name".to_string()),
            ("tr".to_string(), "udp://t:1".to_string()),
            ("xt".to_string(), "urn:btih:0102030405060708090a0b0c0d0e0f1011121314".to_string()),
        ],
        raw_query: None,
    };
    let (hash, trackers) = magnet_from_parts(&url).unwrap();
    assert_eq!(hash, [1, 2, 3, 4, 5, 6, 7, 8, 9, 10, 11, 12, 13, 14, 15, 16, 17, 18, 19, 20]);
    assert_eq!(trackers, vec!["udp://t:1".to_string()]);
    let url = ParsedUrl {
        scheme: "http".to_string(),
        host: None,
        port: None,
        query: vec![],
        raw_query: None,
    };
    assert_eq!(magnet_from_parts(&url).unwrap_err(), MagnetError::NotMagnet);
}

#[test]
fn fetched_info_is_wrapped_into_a_torrent_file() {
    assert_eq!(wrap_info(b"de"), b"d8:announce0:4:infodee".to_vec());
    let info = b"d6:lengthi10e4:name1:f12:piece lengthi10e6:pieces20:aaaaaaaaaaaaaaaaaaaae";
    let torrent = parse_torrent(&wrap_info(info)).unwrap();
    assert_eq!(torrent.announce, "");
    assert_eq!(torrent.info_hash, info_hash(info));
    assert_eq!(torrent.name, "f");
}

#[test]
fn integers_are_cut_to_their_low_bits() {
    assert_eq!(wrap_u8(0), 0);
    assert_eq!(wrap_u8(255), 255);
    assert_eq!(wrap_u8(256), 0);
    assert_eq!(wrap_u8(257), 1);
    assert_eq!(wrap_u8(-1), 255);
    assert_eq!(wrap_u8(-256), 0);
    assert_eq!(wrap_u8(i64::MAX), 255);
    assert_eq!(wrap_u8(i64::MIN), 0);
    assert_eq!(wrap_u16(65536 + 80), 80);
    assert_eq!(wrap_u16(-1), 65535);
    assert_eq!(wrap_u32(1 << 32), 0);
    assert_eq!(wrap_u32(-1), u32::MAX);
    assert_eq!(wrap_u32(i64::MIN), 0);
    assert_eq!(wrap_u32(1800), 1800);
    for i in [-70000i64, -513, -2, 3, 511, 70000, 1 << 40] {
        assert_eq!(wrap_u8(i), i as u8);
        assert_eq!(wrap_u16(i), i as u16);
        assert_eq!(wrap_u32(i), i as u32);
    }
}

#[test]
fn extension_handshakes() {
    assert_eq!(extension_handshake(Some(1), None), b"d1:md6:ut_pexi1eee".to_vec());
    assert_eq!(extension_handshake(None, Some(2)), b"d1:md11:ut_metadatai2eee".to_vec());
    assert_eq!(
        extension_handshake(Some(1), Some(2)),
        b"d1:md11:ut_metadatai2e6:ut_pexi1eee".to_vec()
    );
    assert_eq!(extension_handshake(None, None), b"d1:mdee".to_vec());
    assert_eq!(MetadataFetch::handshake(), b"d1:md11:ut_metadatai2eee".to_vec());
    let none = ExtensionInfo { ut_pex: None, ut_metadata: None, metadata_size: None };
    assert_eq!(parse_extension_handshake(b""), none);
    assert_eq!(parse_extension_handshake(b"i1e"), none);
    assert_eq!(parse_extension_handshake(b"d1:mi1ee"), none);
    assert_eq!(
        parse_extension_handshake(b"d1:md11:ut_metadatai3e6:ut_pexi1ee13:metadata_sizei99ee"),
        ExtensionInfo { ut_pex: Some(1), ut_metadata: Some(3), metadata_size: Some(99) }
    );
    assert_eq!(
        parse_extension_handshake(b"d1:md6:ut_pex1:xe13:metadata_size2:99e"),
        none
    );
}

fn dict(pairs: Vec<(&str, Bencode)>) -> Bencode {
    let mut entries = Vec::new();
    for (k, v) in pairs {
        insert_entry(&mut entries, k.as_bytes().to_vec(), v);
    }
    Bencode::Dict(entries)
}

fn data_message(id: u8, piece: i64, data: &[u8]) -> Message {
    let mut payload =
        dict(vec![("msg_type", Bencode::Int(1)), ("piece", Bencode::Int(piece))]).encode();
    payload.extend_from_slice(data);
    Message::Extended { id, payload }
}

#[test]
fn metadata_request_payload() {
    assert_eq!(metadata_request(0), b"d8:msg_typei0e5:piecei0ee".to_vec());
    assert_eq!(metadata_request(12), b"d8:msg_typei0e5:piecei12ee".to_vec());
}

#[test]
fn metadata_fetch_needs_an_id_and_a_size() {
    let hash = [0u8; 20];
    for info in [
        ExtensionInfo { ut_pex: Some(1), ut_metadata: None, metadata_size: Some(10) },
        ExtensionInfo { ut_pex: None, ut_metadata: Some(0), metadata_size: Some(10) },
        ExtensionInfo { ut_pex: None, ut_metadata: Some(3), metadata_size: None },
        ExtensionInfo { ut_pex: None, ut_metadata: Some(3), metadata_size: Some(0) },
    ] {
        assert_eq!(
            MetadataFetch::start(hash, &info).unwrap_err(),
            MetadataError::ExtensionUnsupported
        );
    }
}

#[test]
fn metadata_is_fetched_in_pieces() {
    let metadata: Vec<u8> = (0..40000u32).map(|i| (i % 7) as u8 + b'a').collect();
    let hash = info_hash(&metadata);
    let info = ExtensionInfo { ut_pex: None, ut_metadata: Some(3), metadata_size: Some(40000) };
    let (mut fetch, requests) = MetadataFetch::start(hash, &info).unwrap();
    assert_eq!(fetch.piece_count, 3);
    assert_eq!(fetch.buffer, vec![0u8; 40000]);
    assert_eq!(requests.len(), 3);
    for (i, r) in requests.iter().enumerate() {
        match r {
            Message::Extended { id: 3, payload } => {
                assert_eq!(payload, &metadata_request(i as u32))
            }
            _ => panic!("no request"),
        }
    }
    // What is not for us is passed over.
    assert_eq!(fetch.on_message(&Message::Unchoke), Ok(false));
    assert_eq!(fetch.on_message(&data_message(4, 0, &metadata[..16384])), Ok(false));
    let other = Message::Extended { id: 3, payload: b"d8:msg_typei0e5:piecei0ee".to_vec() };
    assert_eq!(fetch.on_message(&other), Ok(false));
    assert_eq!(fetch.on_message(&data_message(3, 0, &[])), Ok(false));
    assert_eq!(fetch.on_message(&data_message(3, 3, b"beyond")), Ok(false));
    assert_eq!(fetch.received, 0);
    assert_eq!(fetch.on_message(&data_message(3, 2, &metadata[32768..])), Ok(false));
    assert_eq!(fetch.on_message(&data_message(3, 0, &metadata[..16384])), Ok(false));
    assert_eq!(fetch.received, 2);
    assert_eq!(fetch.on_message(&data_message(3, 1, &metadata[16384..32768])), Ok(true));
    assert_eq!(fetch.on_message(&Message::Choke), Ok(true));
    assert_eq!(fetch.buffer, metadata);
    assert_eq!(fetch.finish().unwrap(), metadata);
}

#[test]
fn metadata_that_overruns_is_cut() {
    let info = ExtensionInfo { ut_pex: None, ut_metadata: Some(1), metadata_size: Some(5) };
    let (mut fetch, requests) = MetadataFetch::start(info_hash(b"hello"), &info).unwrap();
    assert_eq!(requests.len(), 1);
    assert_eq!(fetch.on_message(&data_message(1, 0, b"hello world")), Ok(true));
    assert_eq!(fetch.buffer, b"hello".to_vec());
    assert_eq!(fetch.finish().unwrap(), b"hello".to_vec());
}

#[test]
fn metadata_fetch_fails() {
    let info = ExtensionInfo { ut_pex: None, ut_metadata: Some(1), metadata_size: Some(5) };
    let (mut fetch, _) = MetadataFetch::start(info_hash(b"hello"), &info).unwrap();
    let reject = Message::Extended { id: 1, payload: b"d8:msg_typei2e5:piecei0ee".to_vec() };
    assert_eq!(fetch.on_message(&reject).unwrap_err(), MetadataError::Rejected);
    let broken = Message::Extended { id: 1, payload: b"d8:msg_type".to_vec() };
    assert_eq!(fetch.on_message(&broken).unwrap_err(), MetadataError::CodecInvalid);
    assert_eq!(fetch.on_message(&data_message(1, 0, b"hellp")), Ok(true));
    assert_eq!(fetch.finish().unwrap_err(), MetadataError::HashMismatch);
}

#[test]
fn metadata_fetch_ends_on_a_given_digest() {
    let info = ExtensionInfo { ut_pex: None, ut_metadata: Some(1), metadata_size: Some(3) };
    let (fetch, _) = MetadataFetch::start([7; 20], &info).unwrap();
    assert_eq!(fetch.finish_with(&[7; 20]).unwrap(), vec![0, 0, 0]);
    let (fetch, _) = MetadataFetch::start([7; 20], &info).unwrap();
    assert_eq!(fetch.finish_with(&[8; 20]).unwrap_err(), MetadataError::HashMismatch);
}
