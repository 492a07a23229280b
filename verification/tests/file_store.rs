use drafftink::server::store::{file_expired, sanitize_room_id, FileAge, FileRoomStore};
use std::path::PathBuf;

#[test]
fn sanitize_rejects_empty() {
    assert!(sanitize_room_id("").is_none());
}

#[test]
fn sanitize_maps_special_chars() {
    assert_eq!(sanitize_room_id("a/b").as_deref(), Some("a_b"));
}

#[test]
fn sanitize_keeps_safe_chars_and_replaces_each_other_char() {
    assert_eq!(sanitize_room_id("Room_1-x").as_deref(), Some("Room_1-x"));
    assert_eq!(sanitize_room_id("../é.x").as_deref(), Some("_____x"));
}

#[test]
fn sanitize_rejects_ids_over_128_bytes() {
    let ok = "a".repeat(128);
    assert_eq!(sanitize_room_id(&ok).as_deref(), Some(ok.as_str()));
    assert!(sanitize_room_id(&"a".repeat(129)).is_none());
    // 64 two-byte characters are 128 bytes; 65 are too many
    assert!(sanitize_room_id(&"é".repeat(64)).is_some());
    assert!(sanitize_room_id(&"é".repeat(65)).is_none());
}

#[test]
fn room_path_joins_sanitized_name() {
    let store = FileRoomStore::new(PathBuf::from("/data/rooms"), None, 10);
    assert_eq!(store.room_file_name("a b").as_deref(), Some("a_b.snapshot"));
    assert_eq!(store.room_path("a b"), Some(PathBuf::from("/data/rooms/a_b.snapshot")));
    assert_eq!(store.room_path(""), None);
}

#[test]
fn file_store_size_limit() {
    let store = FileRoomStore::new(PathBuf::from("d"), Some(60), 4);
    assert!(store.accepts_snapshot("abcd"));
    assert!(!store.accepts_snapshot("abcde"));
    assert_eq!(store.accept_loaded("abcd".to_string()).as_deref(), Some("abcd"));
    assert_eq!(store.accept_loaded("abcde".to_string()), None);
    assert_eq!(store.room_ttl_secs(), Some(60));
}

#[test]
fn expiry_rules() {
    assert!(file_expired(FileAge::Missing, 10));
    assert!(!file_expired(FileAge::Unknown, 10));
    assert!(!file_expired(FileAge::Known { modified_secs: 100, now_secs: 110 }, 10));
    assert!(file_expired(FileAge::Known { modified_secs: 100, now_secs: 111 }, 10));
    // a modification time in the future counts as fresh
    assert!(!file_expired(FileAge::Known { modified_secs: 200, now_secs: 100 }, 0));
}

#[test]
fn save_target_and_expiry_plan() {
    let store = FileRoomStore::new(PathBuf::from("/d"), Some(10), 4);
    assert_eq!(store.save_target("a/b", "abcd"), Some(PathBuf::from("/d/a_b.snapshot")));
    assert_eq!(store.save_target("a/b", "abcde"), None);
    assert_eq!(store.save_target("", "a"), None);
    assert_eq!(store.dir(), &PathBuf::from("/d"));
    assert!(store.snapshot_expired(FileAge::Known { modified_secs: 0, now_secs: 11 }));
    assert!(!store.snapshot_expired(FileAge::Unknown));
    let no_ttl = FileRoomStore::new(PathBuf::from("/d"), None, 4);
    assert!(!no_ttl.snapshot_expired(FileAge::Missing));
}

#[test]
fn ids_with_one_sanitized_form_share_a_path() {
    let store = FileRoomStore::new(PathBuf::from("/data/rooms"), None, 10);
    assert_eq!(store.room_path("a/b"), store.room_path("a_b"));
    assert_eq!(store.room_path("a/b"), Some(PathBuf::from("/data/rooms/a_b.snapshot")));
    assert_ne!(store.room_path("a/b"), store.room_path("ab"));
}

#[test]
fn load_result_follows_the_load_rules() {
    let store = FileRoomStore::new(PathBuf::from("d"), Some(60), 4);
    let fresh = FileAge::Known { modified_secs: 100, now_secs: 130 };
    let old = FileAge::Known { modified_secs: 100, now_secs: 161 };
    assert_eq!(store.load_result("a/b", true, fresh, Some("abcd".to_string())), Some("abcd".to_string()));
    assert_eq!(store.load_result("a/b", true, old, Some("abcd".to_string())), None);
    assert_eq!(store.load_result("a/b", true, fresh, Some("abcde".to_string())), None);
    assert_eq!(store.load_result("a/b", false, fresh, Some("abcd".to_string())), None);
    assert_eq!(store.load_result("", true, fresh, Some("abcd".to_string())), None);
    assert_eq!(store.load_result("a/b", true, fresh, None), None);
    assert_eq!(store.load_result("a/b", true, FileAge::Unknown, Some("ab".to_string())), Some("ab".to_string()));
    let no_ttl = FileRoomStore::new(PathBuf::from("d"), None, 4);
    assert_eq!(no_ttl.load_result("a", true, old, Some("ab".to_string())), Some("ab".to_string()));
}

#[test]
fn saved_snapshot_is_read_back_under_same_sanitized_id() {
    let store = FileRoomStore::new(PathBuf::from("/data/rooms"), None, 8);
    let path = store.save_target("a/b", "abcd").unwrap();
    assert_eq!(store.room_path("a_b"), Some(path));
    assert_eq!(
        store.load_result("a_b", true, FileAge::Unknown, Some("abcd".to_string())),
        Some("abcd".to_string())
    );
}
