use zenoh_backend_fs::index::{
    db_path, del_data_info, gc_sweep, get_encoding_and_timestamp, is_stale, put_data_info,
    rename_key, IndexError, IndexOp, SweepEntry, MIN_DELAY_BEFORE_REMOVAL,
};
use zenoh_backend_fs::record::{encode_record, DataInfo, Encoding};
use zenoh_backend_fs::timestamp::Timestamp;

fn record(time: u64) -> Vec<u8> {
    let mut id = [0u8; 16];
    id[0] = 5;
    encode_record(&DataInfo {
        timestamp: Timestamp { time, id },
        encoding: Encoding { id: 4, schema: vec![] },
    })
}

#[test]
fn index_lives_under_root() {
    assert_eq!(db_path("/store"), "/store/.zenoh_datainfo");
}

#[test]
fn put_and_delete_ops() {
    let ts = Timestamp { time: 1, id: [1u8; 16] };
    let op = put_data_info("/store/k", Encoding { id: 4, schema: vec![] }, &ts);
    match op {
        IndexOp::Put { key, value } => {
            assert_eq!(key, "/store/k");
            let (e, t) = get_encoding_and_timestamp(Some(&value)).unwrap().unwrap();
            assert_eq!(t, ts);
            assert_eq!(e.id, 4);
        }
        _ => panic!("expected a put"),
    }
    assert_eq!(del_data_info("/store/k"), IndexOp::Delete { key: "/store/k".to_string() });
    assert_eq!(get_encoding_and_timestamp(None), Ok(None));
}

#[test]
fn rename_moves_record() {
    let ops = rename_key("/s/a", "/s/a.##z", Some(vec![1, 2])).unwrap();
    assert_eq!(
        ops,
        vec![
            IndexOp::Put { key: "/s/a.##z".to_string(), value: vec![1, 2] },
            IndexOp::Delete { key: "/s/a".to_string() },
        ]
    );
    assert_eq!(rename_key("/s/a", "/s/a.##z", None), Err(IndexError::NotFound));
}

#[test]
fn gc_drops_old_orphans_only() {
    let now: u64 = 100 << 32;
    let old = now - MIN_DELAY_BEFORE_REMOVAL - 1;
    let young = now - 1;
    let entries = vec![
        SweepEntry { key: "gone_old".to_string(), value: record(old), file_exists: false },
        SweepEntry { key: "gone_young".to_string(), value: record(young), file_exists: false },
        SweepEntry { key: "kept_old".to_string(), value: record(old), file_exists: true },
        SweepEntry { key: "junk".to_string(), value: vec![1, 2, 3], file_exists: false },
        SweepEntry { key: "gone_old2".to_string(), value: record(0), file_exists: false },
    ];
    assert_eq!(gc_sweep(now, &entries), vec!["gone_old".to_string(), "gone_old2".to_string()]);
    assert!(!is_stale(now, &entries[1]));
    assert!(gc_sweep(now, &vec![]).is_empty());
}

#[test]
fn gc_grace_boundary() {
    let now: u64 = 100 << 32;
    let at = SweepEntry {
        key: "k".to_string(),
        value: record(now - MIN_DELAY_BEFORE_REMOVAL),
        file_exists: false,
    };
    assert!(!is_stale(now, &at));
    assert_eq!(MIN_DELAY_BEFORE_REMOVAL, 5u64 << 32);
}
