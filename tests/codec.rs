use traffloat::codec::{
    decode, decode_seq, decode_string, encode, encode_seq, encode_string, MalformedData,
};
use traffloat::time::{Instant, Time};

#[test]
fn integers_are_little_endian() {
    assert_eq!(encode(&0x12345678u32), vec![0x78, 0x56, 0x34, 0x12]);
    assert_eq!(encode(&0xABCDu16), vec![0xCD, 0xAB]);
    assert_eq!(encode(&7u8), vec![7]);
    assert_eq!(encode(&1u64), vec![1, 0, 0, 0, 0, 0, 0, 0]);
    assert_eq!(encode(&-1i64), vec![0xFF; 8]);
    assert_eq!(decode::<u32>(&[0x78, 0x56, 0x34, 0x12]), Ok((0x12345678, 4)));
}

#[test]
fn round_trip_values() {
    let t = Time(4321);
    assert_eq!(decode::<Time>(&encode(&t)), Ok((t, 4)));
    let i = Instant(Time(99));
    assert_eq!(decode::<Instant>(&encode(&i)), Ok((i, 4)));
    let v = (Some(300u16), (true, i64::MIN));
    let bytes = encode(&v);
    assert_eq!(bytes.len(), 1 + 2 + 1 + 8);
    assert_eq!(decode::<(Option<u16>, (bool, i64))>(&bytes), Ok((v, 12)));
    let none: Option<u64> = None;
    assert_eq!(encode(&none), vec![0]);
    assert_eq!(decode::<Option<u64>>(&[0]), Ok((None, 1)));
}

#[test]
fn decode_leaves_remainder() {
    assert_eq!(decode::<u16>(&[1, 2, 3]), Ok((0x0201, 2)));
}

#[test]
fn truncated_prefixes_fail() {
    let v = (Instant(Time(77)), Some(5u32));
    let bytes = encode(&v);
    for k in 0..bytes.len() {
        assert_eq!(
            decode::<(Instant, Option<u32>)>(&bytes[..k]),
            Err(MalformedData)
        );
    }
    assert_eq!(decode::<(Instant, Option<u32>)>(&bytes), Ok((v, bytes.len())));
}

#[test]
fn corrupted_tags_fail() {
    assert_eq!(decode::<bool>(&[2]), Err(MalformedData));
    assert_eq!(decode::<Option<u8>>(&[7, 1]), Err(MalformedData));
    assert_eq!(decode::<bool>(&[1]), Ok((true, 1)));
}

#[test]
fn sequence_round_trip() {
    let items = vec![Time(1), Time(300), Time(70000)];
    let mut bytes = Vec::new();
    encode_seq(&items, &mut bytes);
    assert_eq!(bytes.len(), 4 + 3 * 4);
    assert_eq!(&bytes[..4], &[3, 0, 0, 0]);
    assert_eq!(decode_seq::<Time>(&bytes, 0), Ok((items, 16)));
}

#[test]
fn empty_sequence_and_offset() {
    let mut bytes = vec![0xAA];
    encode_seq::<u8>(&Vec::new(), &mut bytes);
    assert_eq!(bytes, vec![0xAA, 0, 0, 0, 0]);
    assert_eq!(decode_seq::<u8>(&bytes, 1), Ok((Vec::new(), 5)));
}

#[test]
fn truncated_sequences_fail() {
    let items: Vec<u8> = b"hello".to_vec();
    let mut bytes = Vec::new();
    encode_seq(&items, &mut bytes);
    for k in 0..bytes.len() {
        assert_eq!(decode_seq::<u8>(&bytes[..k], 0), Err(MalformedData));
    }
    assert_eq!(decode_seq::<u8>(&bytes, 0), Ok((items, 9)));
    // a length prefix that promises more items than the buffer holds
    assert_eq!(decode_seq::<u8>(&[9, 0, 0, 0, 1, 2], 0), Err(MalformedData));
}

#[test]
fn string_round_trip() {
    let mut bytes = Vec::new();
    encode_string("h\u{e9}llo", &mut bytes);
    assert_eq!(bytes, vec![6, 0, 0, 0, b'h', 0xC3, 0xA9, b'l', b'l', b'o']);
    assert_eq!(decode_string(&bytes, 0), Ok((String::from("h\u{e9}llo"), 10)));
    let mut empty = Vec::new();
    encode_string("", &mut empty);
    assert_eq!(decode_string(&empty, 0), Ok((String::new(), 4)));
}

#[test]
fn malformed_strings_fail() {
    let mut bytes = Vec::new();
    encode_string("texture.png", &mut bytes);
    for k in 0..bytes.len() {
        assert_eq!(decode_string(&bytes[..k], 0), Err(MalformedData));
    }
    // a lone continuation byte is not UTF-8
    assert_eq!(decode_string(&[1, 0, 0, 0, 0x80], 0), Err(MalformedData));
}
