use zenoh_backend_fs::timestamp::{timestamp_from_file_time, Timestamp};

fn ts(time: u64, id0: u8, id1: u8) -> Timestamp {
    let mut id = [0u8; 16];
    id[0] = id0;
    id[1] = id1;
    Timestamp { time, id }
}

#[test]
fn order_by_time_first() {
    assert!(ts(1, 9, 9).is_before(&ts(2, 1, 0)));
    assert!(!ts(2, 1, 0).is_before(&ts(1, 9, 9)));
}

#[test]
fn order_by_identity_on_equal_time() {
    assert!(ts(5, 1, 0).is_before(&ts(5, 2, 0)));
    assert!(ts(5, 1, 1).is_before(&ts(5, 1, 2)));
    assert!(!ts(5, 1, 2).is_before(&ts(5, 1, 1)));
    assert!(!ts(5, 1, 1).is_before(&ts(5, 1, 1)));
}

#[test]
fn order_agrees_with_clock_library() {
    let pairs = [(ts(5, 1, 0), ts(5, 0, 1)), (ts(5, 0, 1), ts(5, 1, 0)), (ts(3, 2, 2), ts(4, 1, 1))];
    for (a, b) in pairs.iter() {
        let za = zenoh::time::Timestamp::new(
            zenoh::time::NTP64(a.time),
            zenoh::time::TimestampId::try_from(a.id).unwrap(),
        );
        let zb = zenoh::time::Timestamp::new(
            zenoh::time::NTP64(b.time),
            zenoh::time::TimestampId::try_from(b.id).unwrap(),
        );
        assert_eq!(a.is_before(b), za < zb);
    }
}

#[test]
fn file_time_timestamp() {
    let t = timestamp_from_file_time(1, 500_000_000);
    assert_eq!(t.time, (1u64 << 32) + (1u64 << 31));
    let mut id = [0u8; 16];
    id[0] = 1;
    assert_eq!(t.id, id);
    assert!(t.has_valid_id());
}

#[test]
fn zero_identity_not_valid() {
    assert!(!Timestamp { time: 0, id: [0u8; 16] }.has_valid_id());
    assert!(ts(0, 0, 1).has_valid_id());
}
