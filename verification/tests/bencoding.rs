use tds::bencoding::bencode::insert_entry;
use tds::bencoding::{decode, find_info_slice, locate, Bencode, DecodeError, LocateError};

fn dict(pairs: Vec<(&str, Bencode)>) -> Bencode {
    let mut entries = Vec::new();
    for (k, v) in pairs {
        insert_entry(&mut entries, k.as_bytes().to_vec(), v);
    }
    Bencode::Dict(entries)
}

fn decode_all(input: &[u8]) -> (Result<Bencode, DecodeError>, usize) {
    let mut pos = 0;
    let r = decode(input, &mut pos);
    (r, pos)
}

#[test]
fn encode_integer() {
    assert_eq!(Bencode::Int(42).encode(), b"i42e".to_vec());
    assert_eq!(Bencode::Int(0).encode(), b"i0e".to_vec());
    assert_eq!(Bencode::Int(-7).encode(), b"i-7e".to_vec());
    assert_eq!(
        Bencode::Int(i64::MIN).encode(),
        b"i-9223372036854775808e".to_vec()
    );
    assert_eq!(
        Bencode::Int(i64::MAX).encode(),
        b"i9223372036854775807e".to_vec()
    );
}

#[test]
fn encode_bytes_list_and_dictionary() {
    assert_eq!(Bencode::Bytes(b"hello".to_vec()).encode(), b"5:hello".to_vec());
    assert_eq!(Bencode::Bytes(Vec::new()).encode(), b"0:".to_vec());
    let list = Bencode::List(vec![Bencode::Int(1), Bencode::Bytes(b"a".to_vec())]);
    assert_eq!(list.encode(), b"li1e1:ae".to_vec());
    let d = dict(vec![("b", Bencode::Bytes(b"c".to_vec())), ("a", Bencode::Int(1))]);
    assert_eq!(d.encode(), b"d1:ai1e1:b1:ce".to_vec());
}

#[test]
fn decode_gives_back_what_was_encoded() {
    let values = vec![
        Bencode::Int(42),
        Bencode::Int(-1),
        Bencode::Bytes(b"hello".to_vec()),
        Bencode::List(vec![Bencode::Int(1), Bencode::Bytes(b"a".to_vec())]),
        dict(vec![("a", Bencode::Int(1)), ("b", Bencode::Bytes(b"c".to_vec()))]),
        dict(vec![(
            "m",
            dict(vec![("ut_pex", Bencode::Int(1)), ("ut_metadata", Bencode::Int(2))]),
        )]),
    ];
    for v in values {
        let bytes = v.encode();
        let (r, pos) = decode_all(&bytes);
        let back = r.unwrap();
        assert_eq!(pos, bytes.len());
        assert_eq!(format!("{:?}", back), format!("{:?}", v));
        assert_eq!(back.encode(), bytes);
    }
}

#[test]
fn decode_literal_forms() {
    let (r, pos) = decode_all(b"i42e");
    assert!(matches!(r, Ok(Bencode::Int(42))));
    assert_eq!(pos, 4);
    let (r, pos) = decode_all(b"5:hello");
    match r {
        Ok(Bencode::Bytes(b)) => assert_eq!(b, b"hello".to_vec()),
        _ => panic!("not a byte string"),
    }
    assert_eq!(pos, 7);
    let (r, _) = decode_all(b"li1e1:ae");
    match r {
        Ok(Bencode::List(items)) => {
            assert_eq!(items.len(), 2);
            assert!(matches!(items[0], Bencode::Int(1)));
        }
        _ => panic!("not a list"),
    }
    let (r, _) = decode_all(b"d1:ai1e1:b1:ce");
    match r {
        Ok(Bencode::Dict(entries)) => {
            assert_eq!(entries.len(), 2);
            assert_eq!(entries[0].0, b"a".to_vec());
            assert_eq!(entries[1].0, b"b".to_vec());
        }
        _ => panic!("not a dictionary"),
    }
}

#[test]
fn decode_orders_keys_and_keeps_the_last_binding() {
    let (r, _) = decode_all(b"d1:bi1e1:ai2e1:bi3ee");
    match r {
        Ok(Bencode::Dict(entries)) => {
            assert_eq!(entries.len(), 2);
            assert_eq!(entries[0].0, b"a".to_vec());
            assert!(matches!(entries[0].1, Bencode::Int(2)));
            assert_eq!(entries[1].0, b"b".to_vec());
            assert!(matches!(entries[1].1, Bencode::Int(3)));
        }
        _ => panic!("not a dictionary"),
    }
}

#[test]
fn decode_accepts_signs_and_leading_zeros() {
    assert!(matches!(decode_all(b"i+5e").0, Ok(Bencode::Int(5))));
    assert!(matches!(decode_all(b"i-0e").0, Ok(Bencode::Int(0))));
    assert!(matches!(decode_all(b"i007e").0, Ok(Bencode::Int(7))));
    match decode_all(b"03:abc").0 {
        Ok(Bencode::Bytes(b)) => assert_eq!(b, b"abc".to_vec()),
        _ => panic!("not a byte string"),
    }
}

#[test]
fn decode_errors() {
    assert_eq!(decode_all(b"").0.unwrap_err(), DecodeError::UnexpectedEof);
    assert_eq!(decode_all(b"i42").0.unwrap_err(), DecodeError::UnexpectedEof);
    assert_eq!(decode_all(b"ie").0.unwrap_err(), DecodeError::InvalidData);
    assert_eq!(decode_all(b"i-e").0.unwrap_err(), DecodeError::InvalidData);
    assert_eq!(decode_all(b"i4x2e").0.unwrap_err(), DecodeError::InvalidData);
    assert_eq!(
        decode_all(b"i9223372036854775808e").0.unwrap_err(),
        DecodeError::InvalidData
    );
    assert_eq!(decode_all(b"5:hell").0.unwrap_err(), DecodeError::UnexpectedEof);
    assert_eq!(decode_all(b"5").0.unwrap_err(), DecodeError::UnexpectedEof);
    assert_eq!(decode_all(b"5x:hello").0.unwrap_err(), DecodeError::InvalidData);
    assert_eq!(decode_all(b"-1:a").0.unwrap_err(), DecodeError::InvalidData);
    assert_eq!(decode_all(b"li1e").0.unwrap_err(), DecodeError::UnexpectedEof);
    assert_eq!(decode_all(b"lxe").0.unwrap_err(), DecodeError::InvalidData);
    assert_eq!(decode_all(b"li1").0.unwrap_err(), DecodeError::InvalidData);
    assert_eq!(decode_all(b"di1ei2ee").0.unwrap_err(), DecodeError::InvalidData);
    assert_eq!(decode_all(b"d1:a").0.unwrap_err(), DecodeError::InvalidData);
    assert_eq!(decode_all(b"d1:ai1e").0.unwrap_err(), DecodeError::UnexpectedEof);
    assert_eq!(decode_all(b"x").0.unwrap_err(), DecodeError::InvalidData);
}

#[test]
fn decode_starts_at_the_given_position() {
    let input = b"xxi7e3:abc";
    let mut pos = 2;
    assert!(matches!(decode(input, &mut pos), Ok(Bencode::Int(7))));
    assert_eq!(pos, 5);
    match decode(input, &mut pos) {
        Ok(Bencode::Bytes(b)) => assert_eq!(b, b"abc".to_vec()),
        _ => panic!("not a byte string"),
    }
    assert_eq!(pos, 10);
    assert_eq!(decode(input, &mut pos).unwrap_err(), DecodeError::UnexpectedEof);
    assert_eq!(pos, 10);
}

#[test]
fn decode_leaves_the_position_on_an_error() {
    for input in [&b"xxli1ei2"[..], b"xxd1:ai1e1:b", b"xxi12", b"xx12:abc", b"xxli1exe", b"xx?"] {
        let mut pos = 2;
        assert!(decode(input, &mut pos).is_err());
        assert_eq!(pos, 2);
    }
    let mut pos = 99;
    assert_eq!(decode(b"i1e", &mut pos).unwrap_err(), DecodeError::UnexpectedEof);
    assert_eq!(pos, 99);
}

#[test]
fn locate_info_slice() {
    let input = b"d4:infod3:bar3:baze5:otheri1ee";
    assert_eq!(find_info_slice(input).unwrap(), b"d3:bar3:baze");
    assert_eq!(locate(input, b"other").unwrap(), b"i1e");
    assert_eq!(locate(input, b"none").unwrap_err(), LocateError::NotFound);
}

#[test]
fn locate_errors() {
    assert_eq!(find_info_slice(b"").unwrap_err(), LocateError::InvalidData);
    assert_eq!(find_info_slice(b"li1ee").unwrap_err(), LocateError::InvalidData);
    assert_eq!(find_info_slice(b"de").unwrap_err(), LocateError::NotFound);
    assert_eq!(find_info_slice(b"d1:ai1e").unwrap_err(), LocateError::NotFound);
    assert_eq!(find_info_slice(b"di1ei2ee").unwrap_err(), LocateError::InvalidData);
    assert_eq!(find_info_slice(b"d4:infoxe").unwrap_err(), LocateError::InvalidData);
    assert_eq!(find_info_slice(b"d1:axe").unwrap_err(), LocateError::InvalidData);
}

#[test]
fn locate_in_an_encoded_dictionary_gives_the_encoded_value() {
    let inner = dict(vec![("length", Bencode::Int(10)), ("name", Bencode::Bytes(b"f".to_vec()))]);
    let inner_bytes = inner.encode();
    let d = dict(vec![("announce", Bencode::Bytes(b"http://t".to_vec())), ("info", inner)]);
    let bytes = d.encode();
    assert_eq!(find_info_slice(&bytes).unwrap(), &inner_bytes[..]);
}

#[test]
fn dictionary_lookup() {
    let d = dict(vec![("a", Bencode::Int(1)), ("b", Bencode::Int(2))]);
    assert!(matches!(d.get(b"a"), Some(Bencode::Int(1))));
    assert!(matches!(d.get(b"b"), Some(Bencode::Int(2))));
    assert!(d.get(b"c").is_none());
    assert!(Bencode::Int(1).get(b"a").is_none());
}
