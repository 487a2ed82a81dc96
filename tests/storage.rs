use zenoh_backend_fs::files::{FilesMgr, OnClosure};
use zenoh_backend_fs::storage::{
    admit_update, extract_bool, listed_keys, parse_on_closure, storage_key, Admission, ConfigError,
    FileSystemStorage, FileSystemVolume, PropValue, StorageError, ROOT_KEY,
};
use zenoh_backend_fs::timestamp::Timestamp;

fn ts(time: u64) -> Timestamp {
    Timestamp { time, id: [1u8; 16] }
}

#[test]
fn unnamed_entry_uses_root_key() {
    assert_eq!(storage_key(None), ROOT_KEY);
    assert_eq!(storage_key(Some("a/b")), "a/b");
}

#[test]
fn last_writer_wins() {
    assert_eq!(admit_update(false, None, &ts(1)), Ok(Admission::Apply));
    assert_eq!(admit_update(false, Some(ts(1)), &ts(2)), Ok(Admission::Apply));
    assert_eq!(admit_update(false, Some(ts(2)), &ts(1)), Ok(Admission::Outdated));
    assert_eq!(admit_update(false, Some(ts(2)), &ts(2)), Ok(Admission::Outdated));
    assert_eq!(admit_update(true, None, &ts(1)), Err(StorageError::ReadOnly));
}

#[test]
fn boolean_properties() {
    assert_eq!(extract_bool(None, true), Ok(true));
    assert_eq!(extract_bool(Some(&PropValue::Bool(false)), true), Ok(false));
    assert_eq!(
        extract_bool(Some(&PropValue::Str("true".to_string())), false),
        Err(ConfigError::NotABoolean)
    );
}

#[test]
fn closure_policy_property() {
    assert_eq!(parse_on_closure(None), Ok(OnClosure::DoNothing));
    assert_eq!(
        parse_on_closure(Some(&PropValue::Str("delete_all".to_string()))),
        Ok(OnClosure::DeleteAll)
    );
    assert_eq!(
        parse_on_closure(Some(&PropValue::Str("do_nothing".to_string()))),
        Ok(OnClosure::DoNothing)
    );
    assert_eq!(
        parse_on_closure(Some(&PropValue::Str("keep".to_string()))),
        Err(ConfigError::UnsupportedOnClosure)
    );
    assert_eq!(
        parse_on_closure(Some(&PropValue::Bool(true))),
        Err(ConfigError::UnsupportedOnClosure)
    );
}

#[test]
fn storage_dir_property() {
    let v = FileSystemVolume::new("/root".to_string());
    assert_eq!(
        v.storage_base_dir(Some(&PropValue::Str("data/x".to_string()))),
        Ok("/root/data/x".to_string())
    );
    assert_eq!(
        v.storage_base_dir(Some(&PropValue::Str("/abs".to_string()))),
        Err(ConfigError::AbsoluteDir)
    );
    assert_eq!(
        v.storage_base_dir(Some(&PropValue::Str("a/../b".to_string()))),
        Err(ConfigError::ParentDirInDir)
    );
    assert_eq!(
        v.storage_base_dir(Some(&PropValue::Str("a/..b".to_string()))),
        Ok("/root/a/..b".to_string())
    );
    assert_eq!(v.storage_base_dir(None), Err(ConfigError::MissingDir));
    assert_eq!(v.storage_base_dir(Some(&PropValue::Other)), Err(ConfigError::MissingDir));
}

#[test]
fn read_only_storage_refuses_updates() {
    let files = FilesMgr::new("/store".to_string(), false, true, OnClosure::DoNothing);
    let ro = FileSystemStorage::new(files.clone(), true);
    let rw = FileSystemStorage::new(files, false);
    assert_eq!(ro.update_target(Some("a")), Err(StorageError::ReadOnly));
    assert_eq!(ro.read_target(Some("a")).unwrap().fspath, "/store/a");
    assert_eq!(rw.update_target(None).unwrap().fspath, "/store/@root");
    assert_eq!(rw.update_target(Some("../x")), Err(StorageError::InvalidKey));
}

#[test]
fn listing_skips_root_key_and_bad_keys() {
    let files = FilesMgr::new("/store".to_string(), false, true, OnClosure::DoNothing);
    let s = FileSystemStorage::new(files, true);
    assert!(s.listed_entry(ROOT_KEY).is_none());
    assert!(s.listed_entry("a//b").is_none());
    let z = s.listed_entry("a/b").unwrap();
    assert_eq!(z.zpath, "a/b");
    assert_eq!(z.fspath, "/store/a/b");
}

#[test]
fn listing_reports_each_key_once() {
    let found: Vec<String> = vec!["a", "a/b", "a", "@root", "x//y", "a/b", "c"]
        .into_iter()
        .map(|s| s.to_string())
        .collect();
    assert_eq!(
        listed_keys(&found),
        vec!["a".to_string(), "a/b".to_string(), "c".to_string()]
    );
    assert!(listed_keys(&vec![]).is_empty());
}
