use zenoh_backend_fs::record::{
    decode_encoding_timestamp_from_value, decode_record, decode_timestamp, encode_record, DataInfo, Encoding,
    RecordError,
};
use zenoh_backend_fs::timestamp::Timestamp;

fn id(first: u8) -> [u8; 16] {
    let mut a = [0u8; 16];
    a[0] = first;
    a[15] = 0x42;
    a
}

fn info(time: u64, first: u8, enc: u16, schema: Vec<u8>) -> DataInfo {
    DataInfo {
        timestamp: Timestamp { time, id: id(first) },
        encoding: Encoding { id: enc, schema },
    }
}

#[test]
fn record_layout_is_the_serialized_tuple() {
    let i = info(0x0102_0304_0506_0708, 7, 4, b"utf-8".to_vec());
    let ours = encode_record(&i);
    let tuple: (u64, [u8; 16], u16, Vec<u8>) = i.as_tuple();
    let theirs = zenoh_ext::z_serialize(&tuple).to_bytes().to_vec();
    assert_eq!(ours, theirs);
}

#[test]
fn record_layout_long_schema_matches() {
    let i = info(5, 1, 0xFFFF, vec![9u8; 300]);
    let theirs = zenoh_ext::z_serialize(&i.as_tuple()).to_bytes().to_vec();
    assert_eq!(encode_record(&i), theirs);
}

#[test]
fn record_exact_bytes() {
    let i = info(1, 1, 3, vec![]);
    let b = encode_record(&i);
    let mut want = vec![1u8, 0, 0, 0, 0, 0, 0, 0, 16];
    want.extend_from_slice(&id(1));
    want.extend_from_slice(&[3, 0, 0]);
    assert_eq!(b, want);
    assert_eq!(b.len(), 28);
}

#[test]
fn record_round_trip() {
    let i = info(42, 9, 4, b"x".to_vec());
    let b = encode_record(&i);
    let (e, t) = decode_encoding_timestamp_from_value(&b).unwrap();
    assert_eq!(t, i.timestamp);
    assert_eq!(e, i.encoding);
    let tuple = decode_record(&b).unwrap();
    assert_eq!(tuple, i.as_tuple());
}

#[test]
fn decode_reads_what_zenoh_ext_wrote() {
    let tuple: (u64, [u8; 16], u16, Vec<u8>) = (77, id(3), 12, b"schema".to_vec());
    let bytes = zenoh_ext::z_serialize(&tuple).to_bytes().to_vec();
    assert_eq!(decode_record(&bytes), Some(tuple));
}

#[test]
fn truncated_record_is_malformed() {
    let b = encode_record(&info(42, 9, 4, b"abc".to_vec()));
    for n in 0..b.len() {
        assert_eq!(
            decode_encoding_timestamp_from_value(&b[..n]),
            Err(RecordError::Malformed)
        );
    }
}

#[test]
fn trailing_byte_is_malformed() {
    let mut b = encode_record(&info(42, 9, 4, vec![]));
    b.push(0);
    assert_eq!(decode_encoding_timestamp_from_value(&b), Err(RecordError::Malformed));
}

#[test]
fn foreign_bytes_are_malformed() {
    assert_eq!(decode_encoding_timestamp_from_value(b"hello"), Err(RecordError::Malformed));
    let mut b = encode_record(&info(42, 9, 4, vec![]));
    b[8] = 15;
    assert_eq!(decode_encoding_timestamp_from_value(&b), Err(RecordError::Malformed));
}

#[test]
fn padded_varints_are_read() {
    // identity length 16 written as 0x90 0x00, schema length 0 as 0x80 0x80 0x00
    let i = info(42, 9, 4, vec![]);
    let b = encode_record(&i);
    let mut padded = b[..8].to_vec();
    padded.extend_from_slice(&[0x90, 0x00]);
    padded.extend_from_slice(&b[9..27]);
    padded.extend_from_slice(&[0x80, 0x80, 0x00]);
    assert_eq!(decode_encoding_timestamp_from_value(&padded), Ok((i.encoding.clone(), i.timestamp)));
    let theirs: (u64, [u8; 16], u16, Vec<u8>) =
        zenoh_ext::z_deserialize(&zenoh::bytes::ZBytes::from(padded.clone())).unwrap();
    assert_eq!(theirs, i.as_tuple());
}

#[test]
fn varint_longer_than_ten_bytes_is_malformed() {
    let b = encode_record(&info(42, 9, 4, vec![]));
    let mut long = b[..27].to_vec();
    long.extend_from_slice(&[0x80; 10]);
    long.push(0x00);
    assert_eq!(decode_encoding_timestamp_from_value(&long), Err(RecordError::Malformed));
    let mut ten = b[..27].to_vec();
    ten.extend_from_slice(&[0x80; 9]);
    ten.push(0x00);
    assert!(decode_encoding_timestamp_from_value(&ten).is_ok());
    let mut wide = b[..27].to_vec();
    wide.extend_from_slice(&[0x80; 9]);
    wide.push(0x02);
    assert_eq!(decode_encoding_timestamp_from_value(&wide), Err(RecordError::Malformed));
}

#[test]
fn zero_identity_is_refused() {
    let i = DataInfo {
        timestamp: Timestamp { time: 1, id: [0u8; 16] },
        encoding: Encoding { id: 0, schema: vec![] },
    };
    let b = encode_record(&i);
    assert_eq!(
        decode_encoding_timestamp_from_value(&b),
        Err(RecordError::InvalidTimestampId)
    );
    assert_eq!(
        DataInfo::from_tuple(i.as_tuple()),
        Err(RecordError::InvalidTimestampId)
    );
}

#[test]
fn from_tuple_keeps_fields() {
    let t: (u64, [u8; 16], u16, Vec<u8>) = (5, id(2), 7, b"s".to_vec());
    let i = DataInfo::from_tuple(t.clone()).unwrap();
    assert_eq!(i.timestamp.time, 5);
    assert_eq!(i.timestamp.id, id(2));
    assert_eq!(i.encoding.id, 7);
    assert_eq!(i.encoding.schema, b"s".to_vec());
    assert_eq!(i.as_tuple(), t);
}

#[test]
fn timestamp_read_from_record_head() {
    let i = info(0xAABB, 4, 9, b"long schema".to_vec());
    let b = encode_record(&i);
    assert_eq!(decode_timestamp(&b), Ok(i.timestamp));
    assert_eq!(decode_timestamp(&b[..25]), Ok(i.timestamp));
    assert_eq!(decode_timestamp(&b[..24]), Err(RecordError::Malformed));
    let zero = encode_record(&DataInfo {
        timestamp: Timestamp { time: 1, id: [0u8; 16] },
        encoding: Encoding { id: 0, schema: vec![] },
    });
    assert_eq!(decode_timestamp(&zero), Err(RecordError::InvalidTimestampId));
}
