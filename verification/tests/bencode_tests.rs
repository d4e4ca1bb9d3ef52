use bittorrent_starter_rust::bencode::{
    decode, decode_bytes, decode_dict, decode_integer, decode_list, decode_string, dict_get,
    encode, encode_bytes, encode_dict, encode_integer, encode_list, encode_string, BencodeValue,
};
use bittorrent_starter_rust::error::TorrentError;

#[test]
fn round_trips_strings_and_integers() {
    let encoded_string = encode_string("hello").expect("string should encode");
    let encoded_int = encode_integer(42).expect("integer should encode");

    assert_eq!(
        decode_string(&encoded_string).expect("string should decode"),
        "hello"
    );
    assert_eq!(decode_integer(&encoded_int).expect("int should decode"), 42);
}

#[test]
fn reports_type_mismatches() {
    let err = decode_integer(b"5:hello").expect_err("string is not an integer");

    assert!(matches!(
        err,
        TorrentError::UnexpectedType {
            expected: "integer",
            found: "non-integer"
        }
    ));
}

#[test]
fn decodes_dictionaries() {
    let dict = decode_dict(b"d3:cow3:moo4:spam4:eggse").expect("dict should decode");

    assert_eq!(dict.len(), 2);
    let cow = dict_get(&dict, b"cow".as_slice()).expect("cow key should exist");
    assert!(matches!(cow, BencodeValue::Bytes(b) if b == b"moo"));
}

#[test]
fn encodes_values_in_canonical_form() {
    assert_eq!(encode_integer(-7).unwrap(), b"i-7e".to_vec());
    assert_eq!(encode_bytes(&[0, 255]).unwrap(), vec![b'2', b':', 0, 255]);
    assert_eq!(
        encode_list(&[BencodeValue::Int(1), BencodeValue::Bytes(b"ab".to_vec())]).unwrap(),
        b"li1e2:abe".to_vec()
    );
    // Keys come out sorted whatever order they are given in.
    let dict = vec![
        (b"b".to_vec(), BencodeValue::Int(2)),
        (b"a".to_vec(), BencodeValue::Int(1)),
    ];
    assert_eq!(encode_dict(&dict).unwrap(), b"d1:ai1e1:bi2ee".to_vec());
}

#[test]
fn decoding_reads_back_an_encoding() {
    let value = BencodeValue::List(vec![
        BencodeValue::Int(3),
        BencodeValue::Bytes(b"xyz".to_vec()),
        BencodeValue::Dict(vec![(b"k".to_vec(), BencodeValue::Int(-1))]),
    ]);
    let bytes = encode(&value).unwrap();
    let list = decode_list(&bytes).expect("list should decode");
    assert_eq!(list.len(), 3);
    assert!(matches!(list[0], BencodeValue::Int(3)));
    assert!(matches!(&list[1], BencodeValue::Bytes(b) if b == b"xyz"));
    match &list[2] {
        BencodeValue::Dict(entries) => {
            assert!(matches!(dict_get(entries, b"k"), Some(BencodeValue::Int(-1))));
        }
        other => panic!("expected a dictionary, got {other:?}"),
    }
}

#[test]
fn rejects_malformed_input_and_wrong_kinds() {
    assert!(matches!(decode(b"i12"), Err(TorrentError::Bencode(_))));
    assert!(matches!(
        decode_bytes(b"i1e"),
        Err(TorrentError::UnexpectedType { expected: "bytes", found: "non-bytes" })
    ));
    assert!(matches!(
        decode_list(b"i1e"),
        Err(TorrentError::UnexpectedType { expected: "list", found: "non-list" })
    ));
    assert!(matches!(
        decode_dict(b"le"),
        Err(TorrentError::UnexpectedType { expected: "dictionary", found: "non-dictionary" })
    ));
    assert!(matches!(decode_string(&[b'1', b':', 0xff]), Err(TorrentError::InvalidResponseFormat(_))));
}
