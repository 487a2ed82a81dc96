use zenoh_backend_fs::keys::{
    fspath_to_zpath, get_conflict_resolved_keyexpr, get_trimmed_keyexpr, is_valid_key, join,
    zpath_to_fspath, CONFLICT_SUFFIX,
};

#[test]
fn conflict_name_appends_suffix() {
    assert_eq!(get_conflict_resolved_keyexpr("a/b"), "a/b.##z");
    assert_eq!(get_conflict_resolved_keyexpr(""), CONFLICT_SUFFIX);
}

#[test]
fn trimmed_key_drops_suffix_and_leading_slash() {
    assert_eq!(get_trimmed_keyexpr("/a/b.##z"), "a/b");
    assert_eq!(get_trimmed_keyexpr("a/b"), "a/b");
    assert_eq!(get_trimmed_keyexpr("/x"), "x");
    assert_eq!(get_trimmed_keyexpr(".##z"), "");
    assert_eq!(get_trimmed_keyexpr("a.##zz"), "a.##zz");
}

#[test]
fn key_path_mapping_keeps_separators() {
    assert_eq!(zpath_to_fspath("logs/app"), "logs/app");
    assert_eq!(fspath_to_zpath("logs/app"), "logs/app");
}

#[test]
fn valid_keys_accepted() {
    assert!(is_valid_key("a"));
    assert!(is_valid_key("a/b/c"));
    assert!(is_valid_key("@root"));
    assert!(is_valid_key("a/.b"));
    assert!(is_valid_key("a/..b/c"));
    assert!(is_valid_key("a.b"));
}

#[test]
fn escaping_keys_rejected() {
    assert!(!is_valid_key(""));
    assert!(!is_valid_key("/a"));
    assert!(!is_valid_key("a/"));
    assert!(!is_valid_key("a//b"));
    assert!(!is_valid_key(".."));
    assert!(!is_valid_key("a/../b"));
    assert!(!is_valid_key("a/.."));
    assert!(!is_valid_key("./a"));
    assert!(!is_valid_key("a/./b"));
    assert!(!is_valid_key("a#b"));
    assert!(!is_valid_key("a.##z"));
}

#[test]
fn join_puts_one_separator() {
    assert_eq!(join("/store", "logs/app"), "/store/logs/app");
    assert_eq!(join("/", "x"), "/x");
    assert_eq!(join("/store", ""), "/store/");
}
