use zenoh_backend_fs::files::{ancestor_keys, walk_length, EntryKind, FilesMgr, OnClosure, WalkStep};
use zenoh_backend_fs::timestamp::Timestamp;

fn mgr(follow_links: bool, keep_mime: bool) -> FilesMgr {
    FilesMgr::new("/store".to_string(), follow_links, keep_mime, OnClosure::DoNothing)
}

#[test]
fn zfile_of_valid_key() {
    let m = mgr(false, true);
    let z = m.to_zfile("logs/app").unwrap();
    assert_eq!(z.zpath, "logs/app");
    assert_eq!(z.fspath, "/store/logs/app");
    assert!(m.to_zfile("../etc/passwd").is_err());
    assert!(m.to_zfile("/etc/passwd").is_err());
}

#[test]
fn ancestors_nearest_first() {
    assert_eq!(ancestor_keys("a/b/c"), vec!["a/b".to_string(), "a".to_string()]);
    assert!(ancestor_keys("a").is_empty());
    let m = mgr(false, true);
    let z = m.to_zfile("a/b/c").unwrap();
    assert_eq!(m.ancestor_paths(&z), vec!["/store/a/b".to_string(), "/store/a".to_string()]);
}

#[test]
fn walk_stops_at_first_directory() {
    assert_eq!(walk_length(&vec![EntryKind::Absent, EntryKind::File, EntryKind::Dir]), 2);
    assert_eq!(walk_length(&vec![EntryKind::Dir, EntryKind::File]), 0);
    assert_eq!(walk_length(&vec![EntryKind::File, EntryKind::Absent]), 2);
    assert_eq!(walk_length(&vec![]), 0);
}

#[test]
fn conflict_moves_pick_files_before_directory() {
    let m = mgr(false, true);
    let z = m.to_zfile("a/b/c").unwrap();
    assert_eq!(
        m.conflict_moves(&z, &vec![EntryKind::File, EntryKind::Dir]),
        vec!["/store/a/b".to_string()]
    );
    assert_eq!(
        m.conflict_moves(&z, &vec![EntryKind::Absent, EntryKind::File]),
        vec!["/store/a".to_string()]
    );
    assert!(m.conflict_moves(&z, &vec![EntryKind::Dir, EntryKind::File]).is_empty());
}

#[test]
fn write_goes_aside_of_directory() {
    let m = mgr(false, true);
    let z = m.to_zfile("a").unwrap();
    assert_eq!(m.write_target(&z, EntryKind::Dir), "/store/a.##z");
    assert_eq!(m.write_target(&z, EntryKind::File), "/store/a");
    assert_eq!(m.write_target(&z, EntryKind::Absent), "/store/a");
}

#[test]
fn delete_falls_back_to_suffixed_name() {
    let m = mgr(false, true);
    let z = m.to_zfile("a").unwrap();
    assert_eq!(m.delete_target(&z, EntryKind::File), "/store/a");
    assert_eq!(m.delete_target(&z, EntryKind::Dir), "/store/a.##z");
    assert_eq!(m.delete_target(&z, EntryKind::Absent), "/store/a.##z");
    assert_eq!(m.get_conflict_file("/store/a"), "/store/a.##z");
}

#[test]
fn symlinks_block_reads_unless_followed() {
    let strict = mgr(false, true);
    let loose = mgr(true, true);
    assert!(strict.contains_symlink(&vec![false, true, false]));
    assert!(!strict.contains_symlink(&vec![false, false]));
    assert!(!strict.contains_symlink(&vec![]));
    assert!(!strict.is_readable(EntryKind::File, true));
    assert!(strict.is_readable(EntryKind::File, false));
    assert!(loose.is_readable(EntryKind::File, true));
    assert!(!loose.is_readable(EntryKind::Dir, false));
    assert!(!loose.is_readable(EntryKind::Absent, false));
    assert!(!strict.may_search(true));
    assert!(loose.may_search(true));
}

#[test]
fn guessed_encoding_from_extension() {
    let e = mgr(false, true).guess_encoding("/store/notes.txt");
    assert_eq!(e.id, 4);
    assert!(e.schema.is_empty());
    let unknown = mgr(false, true).guess_encoding("/store/blob");
    assert_eq!(unknown.id, 3);
    let off = mgr(false, false).guess_encoding("/store/notes.txt");
    assert_eq!(off.id, 3);
    assert!(off.schema.is_empty());
}

#[test]
fn fallback_metadata_when_no_record() {
    let m = mgr(false, false);
    let (e, t) = m.get_encoding_and_timestamp(None, "/store/x", 10, 0).unwrap();
    assert_eq!(e.id, 3);
    assert_eq!(t.time, 10u64 << 32);
    assert_eq!(t.id[0], 1);
    assert!(t.id[1..].iter().all(|b| *b == 0));
}

#[test]
fn stored_record_wins_over_fallback() {
    let m = mgr(false, false);
    let mut id = [0u8; 16];
    id[3] = 8;
    let op = zenoh_backend_fs::index::put_data_info(
        "/store/x",
        zenoh_backend_fs::record::Encoding { id: 4, schema: vec![] },
        &Timestamp { time: 99, id },
    );
    let value = match op {
        zenoh_backend_fs::index::IndexOp::Put { value, .. } => value,
        _ => panic!("expected a put"),
    };
    let (e, t) = m.get_encoding_and_timestamp(Some(&value), "/store/x", 10, 0).unwrap();
    assert_eq!(e.id, 4);
    assert_eq!(t, Timestamp { time: 99, id });
    assert!(m.get_encoding_and_timestamp(Some(b"junk"), "/store/x", 10, 0).is_err());
}

#[test]
fn generate_metadata_prefers_file_time() {
    let m = mgr(false, false);
    let w = Timestamp { time: 7, id: [2u8; 16] };
    let (_, t) = m.generate_metadata("/store/a", Some((3, 0)), &w);
    assert_eq!(t.time, 3u64 << 32);
    let (e, t2) = m.generate_metadata("/store/a", None, &w);
    assert_eq!(t2, w);
    assert_eq!(e.id, 3);
}

#[test]
fn search_dir_is_literal_prefix() {
    let m = mgr(false, true);
    assert_eq!(m.search_dir("a/b/*/c"), Some("/store/a/b".to_string()));
    assert_eq!(m.search_dir("a/b*"), Some("/store/a".to_string()));
    assert_eq!(m.search_dir("**"), Some("/store/".to_string()));
    assert_eq!(m.search_dir("a/b/c"), Some("/store/a/b".to_string()));
    assert_eq!(m.search_key("a/b/*/c"), Some("a/b".to_string()));
    assert_eq!(m.search_key("**"), Some(String::new()));
}

#[test]
fn search_never_leaves_root() {
    let m = mgr(false, true);
    assert_eq!(m.search_dir("../*"), None);
    assert_eq!(m.search_dir("a/../../*"), None);
    assert_eq!(m.search_dir("/etc/*"), None);
    assert_eq!(m.search_key("../**"), None);
}

#[test]
fn walk_skips_index_directory() {
    let m = mgr(false, true);
    assert_eq!(
        m.visit_entry("**", "/store/.zenoh_datainfo", ".zenoh_datainfo", true, false),
        WalkStep::SkipDir
    );
    assert_eq!(m.visit_entry("**", "/store/a", "a", true, false), WalkStep::Skip);
}

#[test]
fn walk_yields_matching_files_with_visible_key() {
    let m = mgr(false, true);
    match m.visit_entry("a/**", "/store/a/b.##z", "b.##z", false, false) {
        WalkStep::Yield(z) => {
            assert_eq!(z.zpath, "a/b");
            assert_eq!(z.fspath, "/store/a/b.##z");
        }
        other => panic!("unexpected {:?}", other),
    }
    assert_eq!(m.visit_entry("c/**", "/store/a/b", "b", false, false), WalkStep::Skip);
    assert_eq!(m.visit_entry("**", "/elsewhere/a", "a", false, false), WalkStep::Skip);
}

#[test]
fn walk_skips_links_unless_followed() {
    let strict = mgr(false, true);
    let loose = mgr(true, true);
    assert_eq!(strict.visit_entry("**", "/store/l", "l", false, true), WalkStep::Skip);
    assert!(matches!(loose.visit_entry("**", "/store/l", "l", false, true), WalkStep::Yield(_)));
}

#[test]
fn close_policy() {
    let m = FilesMgr::new("/s".to_string(), false, true, OnClosure::DeleteAll);
    assert!(m.deletes_on_close());
    assert!(!mgr(false, true).deletes_on_close());
    assert_eq!(m.base_dir(), "/s");
    assert_eq!(m.to_fspath("k"), "/s/k");
}

#[test]
fn timestamp_for_ordering() {
    let m = mgr(false, true);
    assert_eq!(m.get_timestamp(None, None), Ok(None));
    let t = m.get_timestamp(None, Some((2, 0))).unwrap().unwrap();
    assert_eq!(t.time, 2u64 << 32);
    assert_eq!(t.id[0], 1);
    let mut id = [0u8; 16];
    id[5] = 3;
    let stored = zenoh_backend_fs::record::encode_record(&zenoh_backend_fs::record::DataInfo {
        timestamp: Timestamp { time: 77, id },
        encoding: zenoh_backend_fs::record::Encoding { id: 1, schema: vec![] },
    });
    assert_eq!(m.get_timestamp(Some(&stored), Some((2, 0))), Ok(Some(Timestamp { time: 77, id })));
    assert!(m.get_timestamp(Some(b"x"), None).is_err());
}
