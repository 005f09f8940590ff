use learn_rust::my_redis::{
    encode_decimal, encode_frame, shard_index, stream_end, Frame, StreamEnd, WriteError,
    MAX_DECIMAL_DIGITS,
};
use bytes::Bytes;
use std::io::Cursor;

#[test]
fn simple_and_error_frames() {
    assert_eq!(Ok(b"+OK\r\n".to_vec()), encode_frame(&Frame::Simple("OK".to_string())));
    assert_eq!(Ok(b"+\r\n".to_vec()), encode_frame(&Frame::Simple(String::new())));
    assert_eq!(Ok(b"-boom\r\n".to_vec()), encode_frame(&Frame::Error("boom".to_string())));
}

#[test]
fn text_goes_out_as_utf8() {
    let bytes = encode_frame(&Frame::Simple("h\u{e9}llo \u{4e16}".to_string())).unwrap();
    assert_eq!(vec![43, 104, 0xc3, 0xa9, 108, 108, 111, 32, 0xe4, 0xb8, 0x96, 13, 10], bytes);
}

#[test]
fn integer_frames() {
    assert_eq!(Ok(b":0\r\n".to_vec()), encode_frame(&Frame::Integer(0)));
    assert_eq!(Ok(b":9\r\n".to_vec()), encode_frame(&Frame::Integer(9)));
    assert_eq!(Ok(b":10\r\n".to_vec()), encode_frame(&Frame::Integer(10)));
    assert_eq!(Ok(b":42\r\n".to_vec()), encode_frame(&Frame::Integer(42)));
    assert_eq!(Ok(b":1234567890\r\n".to_vec()), encode_frame(&Frame::Integer(1_234_567_890)));
    assert_eq!(
        Ok(b":999999999999\r\n".to_vec()),
        encode_frame(&Frame::Integer(999_999_999_999))
    );
}

#[test]
fn a_number_of_thirteen_digits_is_refused() {
    assert_eq!(12, MAX_DECIMAL_DIGITS);
    assert_eq!(
        Err(WriteError { written: b":".to_vec() }),
        encode_frame(&Frame::Integer(1_000_000_000_000))
    );
    assert_eq!(
        Err(WriteError { written: b":".to_vec() }),
        encode_frame(&Frame::Integer(u64::MAX))
    );
    assert_eq!(Err(WriteError { written: Vec::new() }), encode_decimal(1_000_000_000_000));
    assert_eq!(Err(WriteError { written: Vec::new() }), encode_decimal(u64::MAX));
}

#[test]
fn decimal_lines() {
    assert_eq!(Ok(b"0\r\n".to_vec()), encode_decimal(0));
    assert_eq!(Ok(b"7\r\n".to_vec()), encode_decimal(7));
    assert_eq!(Ok(b"100\r\n".to_vec()), encode_decimal(100));
    assert_eq!(Ok(b"4096\r\n".to_vec()), encode_decimal(4096));
    assert_eq!(Ok(b"999999999999\r\n".to_vec()), encode_decimal(999_999_999_999));
    for val in [0u64, 1, 9, 10, 11, 99, 100, 12_345, 999_999, 18_446_744_073] {
        assert_eq!(Ok(format!("{}\r\n", val).into_bytes()), encode_decimal(val));
    }
}

#[test]
fn null_and_bulk_frames() {
    assert_eq!(Ok(b"$-1\r\n".to_vec()), encode_frame(&Frame::Null));
    assert_eq!(
        Ok(b"$5\r\nhello\r\n".to_vec()),
        encode_frame(&Frame::Bulk(Bytes::from_static(b"hello")))
    );
    assert_eq!(Ok(b"$0\r\n\r\n".to_vec()), encode_frame(&Frame::Bulk(Bytes::new())));
    assert_eq!(
        Ok(b"$4\r\n\r\n\r\n\r\n".to_vec()),
        encode_frame(&Frame::Bulk(Bytes::from_static(b"\r\n\r\n")))
    );
    let long = vec![7u8; 1234];
    let mut expected = b"$1234\r\n".to_vec();
    expected.extend_from_slice(&long);
    expected.extend_from_slice(b"\r\n");
    assert_eq!(Ok(expected), encode_frame(&Frame::Bulk(Bytes::from(long))));

    // a part of a longer buffer goes out as that part alone
    let shared = Bytes::from_static(b"0123456789");
    assert_eq!(Ok(b"$3\r\n345\r\n".to_vec()), encode_frame(&Frame::Bulk(shared.slice(3..6))));
}

/// Reads `bytes` back with the parser of the service.
fn parsed(bytes: &[u8]) -> mini_redis::Frame {
    let mut cursor = Cursor::new(bytes);
    mini_redis::Frame::check(&mut cursor).expect("a whole frame");
    assert_eq!(bytes.len() as u64, cursor.position());
    cursor.set_position(0);
    mini_redis::Frame::parse(&mut cursor).expect("a frame that parses")
}

#[test]
fn encoded_frames_are_read_back_by_the_parser() {
    match parsed(&encode_frame(&Frame::Simple("OK".to_string())).unwrap()) {
        mini_redis::Frame::Simple(text) => assert_eq!("OK", text),
        other => panic!("{:?}", other),
    }
    match parsed(&encode_frame(&Frame::Error("no such key".to_string())).unwrap()) {
        mini_redis::Frame::Error(text) => assert_eq!("no such key", text),
        other => panic!("{:?}", other),
    }
    match parsed(&encode_frame(&Frame::Integer(999_999_999_999)).unwrap()) {
        mini_redis::Frame::Integer(val) => assert_eq!(999_999_999_999, val),
        other => panic!("{:?}", other),
    }
    match parsed(&encode_frame(&Frame::Bulk(Bytes::from_static(b"a\r\nb"))).unwrap()) {
        mini_redis::Frame::Bulk(data) => assert_eq!(&b"a\r\nb"[..], &data[..]),
        other => panic!("{:?}", other),
    }
    match parsed(&encode_frame(&Frame::Null).unwrap()) {
        mini_redis::Frame::Null => {}
        other => panic!("{:?}", other),
    }
}

#[test]
fn shards() {
    assert_eq!(5, shard_index(13, 8));
    assert_eq!(0, shard_index(16, 8));
    assert_eq!(7, shard_index(u64::MAX, 8));
    assert_eq!(0, shard_index(u64::MAX, 1));
    assert_eq!(12, shard_index(12, usize::MAX));
    for hash in 0..100u64 {
        assert!(shard_index(hash, 3) < 3);
        assert_eq!((hash % 3) as usize, shard_index(hash, 3));
    }
}

#[test]
fn end_of_the_stream() {
    assert_eq!(StreamEnd::Closed, stream_end(0));
    assert_eq!(StreamEnd::Reset, stream_end(1));
    assert_eq!(StreamEnd::Reset, stream_end(4096));
}
