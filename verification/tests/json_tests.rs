use bittorrent_starter_rust::bencode::{decode, BencodeValue};
use bittorrent_starter_rust::json::{bencode_to_json, JsonValue};

#[test]
fn shows_text_numbers_lists_and_dictionaries() {
    let value = decode(b"d3:cowl3:mooi-3ee4:spam4:eggse").expect("dict should decode");
    match bencode_to_json(&value) {
        JsonValue::Object(members) => {
            assert_eq!(members.len(), 2);
            let (key, cow) = members.iter().find(|(k, _)| k == "cow").expect("cow member");
            assert_eq!(key, "cow");
            match cow {
                JsonValue::Array(items) => {
                    assert!(matches!(&items[0], JsonValue::String(s) if s == "moo"));
                    assert!(matches!(items[1], JsonValue::Number(-3)));
                }
                other => panic!("expected an array, got {other:?}"),
            }
        }
        other => panic!("expected an object, got {other:?}"),
    }
}

#[test]
fn shows_binary_strings_as_hex() {
    let value = BencodeValue::Bytes(vec![0xff, 0x00, 0xab]);
    assert!(matches!(bencode_to_json(&value), JsonValue::String(s) if s == "ff00ab"));
    let text = BencodeValue::Bytes(b"hello".to_vec());
    assert!(matches!(bencode_to_json(&text), JsonValue::String(s) if s == "hello"));
}

#[test]
fn reads_binary_keys_leniently() {
    let value = BencodeValue::Dict(vec![(vec![b'a', 0xff], BencodeValue::Int(1))]);
    match bencode_to_json(&value) {
        JsonValue::Object(members) => assert_eq!(members[0].0, "a\u{fffd}"),
        other => panic!("expected an object, got {other:?}"),
    }
}
