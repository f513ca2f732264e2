use minigit::RepoError;
use minigit::digest::hash_content;
use minigit::hex::{bytes_to_hex, u64_to_hex};
use minigit::history::render;
use minigit::ident::fresh_id;
use minigit::model::{Commit, CommitLog, FileSnapshot};
use minigit::snapshot::{excluded_from_walk, read_all_files, snapshot_entry};
use minigit::store::{
    build_commit, ensure_initialized, init_content, initialize, load, metadata_dir_name,
    perform_commit, store_file_name,
};

const HELLO_DIGEST: &str = "2cf24dba5fb0a30e26e83b2ac5b9e29e1b161e5c1fa7425e73043362938b9824";
const EMPTY_DIGEST: &str = "e3b0c44298fc1c149afbf4c8996fb92427ae41e4649b934ca495991b7852b855";
const WORLD_DIGEST: &str = "486ea46224d1bb4fb680f34f7c9ad96a8f24ec88be73ea8e5a6c65260e9cb8a7";

#[test]
fn digest_of_known_content() {
    assert_eq!(hash_content("hello"), HELLO_DIGEST);
    assert_eq!(hash_content(""), EMPTY_DIGEST);
    assert_eq!(hash_content("world"), WORLD_DIGEST);
}

#[test]
fn digest_is_deterministic_and_content_sensitive() {
    assert_eq!(hash_content("some bytes"), hash_content("some bytes"));
    assert_ne!(hash_content("hello"), hash_content("world"));
    assert_ne!(hash_content("hello"), hash_content("hello "));
}

#[test]
fn hex_rendering() {
    assert_eq!(u64_to_hex(0), "0");
    assert_eq!(u64_to_hex(15), "f");
    assert_eq!(u64_to_hex(255), "ff");
    assert_eq!(u64_to_hex(3735928559), "deadbeef");
    assert_eq!(u64_to_hex(u64::MAX), "ffffffffffffffff");
    assert_eq!(bytes_to_hex(&vec![0u8, 255u8, 16u8]), "00ff10");
}

#[test]
fn fresh_ids_are_short_hex() {
    let id = fresh_id();
    assert!(1 <= id.len() && id.len() <= 16);
    assert!(id.chars().all(|c| c.is_ascii_hexdigit() && !c.is_ascii_uppercase()));
}

#[test]
fn snapshot_records_name_and_content_digest() {
    let s = snapshot_entry("a.txt", Some("hello"));
    assert_eq!(s.name, "a.txt");
    assert_eq!(s.hash, HELLO_DIGEST);
}

#[test]
fn unreadable_file_snapshots_as_empty_content() {
    let s = snapshot_entry("locked.bin", None);
    assert_eq!(s.name, "locked.bin");
    assert_eq!(s.hash, EMPTY_DIGEST);
}

#[test]
fn walk_entries_become_snapshots_in_order() {
    let entries = vec![
        ("a.txt".to_string(), Some("hello".to_string())),
        ("b.txt".to_string(), None),
    ];
    let snaps = read_all_files(&entries);
    assert_eq!(snaps.len(), 2);
    assert_eq!(snaps[0].name, "a.txt");
    assert_eq!(snaps[0].hash, HELLO_DIGEST);
    assert_eq!(snaps[1].name, "b.txt");
    assert_eq!(snaps[1].hash, EMPTY_DIGEST);
}

#[test]
fn walk_determinism_same_tree_same_snapshots() {
    let entries = vec![
        ("a.txt".to_string(), Some("hello".to_string())),
        ("sub.txt".to_string(), Some("x".to_string())),
    ];
    let once = read_all_files(&entries);
    let twice = read_all_files(&entries);
    assert_eq!(once.len(), twice.len());
    for (a, b) in once.iter().zip(twice.iter()) {
        assert_eq!(a.name, b.name);
        assert_eq!(a.hash, b.hash);
    }
}

#[test]
fn metadata_directory_is_excluded_from_walks() {
    assert!(excluded_from_walk(".minigit", ".minigit"));
    assert!(excluded_from_walk(".minigit/commits.json", ".minigit"));
    assert!(excluded_from_walk(".minigit/sub/deep", ".minigit"));
    assert!(!excluded_from_walk(".minigitx", ".minigit"));
    assert!(!excluded_from_walk("src/main.rs", ".minigit"));
    assert!(!excluded_from_walk("a/.minigit", ".minigit"));
    assert!(!excluded_from_walk("", ".minigit"));
}

#[test]
fn store_names() {
    assert_eq!(metadata_dir_name(), ".minigit");
    assert_eq!(store_file_name(), "commits.json");
}

#[test]
fn init_writes_the_empty_store() {
    assert_eq!(init_content(), "[]");
}

#[test]
fn init_twice_leaves_content_unchanged() {
    let (first, created) = initialize(None);
    assert!(created);
    assert_eq!(first, "[]");
    let (second, created_again) = initialize(Some(first.clone()));
    assert!(!created_again);
    assert_eq!(second, first);
}

#[test]
fn guard_reports_uninitialized_repository() {
    assert_eq!(ensure_initialized(false).unwrap_err(), RepoError::NotInitialized);
    assert!(ensure_initialized(true).is_ok());
}

#[test]
fn built_commit_carries_message_and_files() {
    let files = vec![FileSnapshot { name: "a".to_string(), hash: "0".to_string() }];
    let c = build_commit("a message".to_string(), files);
    assert_eq!(c.message, "a message");
    assert_eq!(c.files.len(), 1);
    assert_eq!(c.files[0].name, "a");
    assert!(!c.id.is_empty());
}

#[test]
fn append_grows_history_without_disturbing_it() {
    let mut log = CommitLog::new();
    assert_eq!(log.len(), 0);
    log.append(Commit {
        id: "a".to_string(),
        message: "one".to_string(),
        timestamp: "t1".to_string(),
        files: Vec::new(),
    });
    assert_eq!(log.len(), 1);
    log.append(Commit {
        id: "b".to_string(),
        message: "two".to_string(),
        timestamp: "t2".to_string(),
        files: Vec::new(),
    });
    assert_eq!(log.len(), 2);
    assert_eq!(log.commits[0].message, "one");
    assert_eq!(log.commits[1].message, "two");
}

#[test]
fn commit_appends_to_the_stored_sequence() {
    let store = init_content();
    let files = read_all_files(&vec![("a.txt".to_string(), Some("hello".to_string()))]);
    let store = perform_commit(&store, "first".to_string(), files).unwrap();
    let log = load(&store).unwrap();
    assert_eq!(log.commits.len(), 1);
    assert_eq!(log.commits[0].message, "first");
    assert_eq!(log.commits[0].files.len(), 1);
    assert_eq!(log.commits[0].files[0].name, "a.txt");
    assert_eq!(log.commits[0].files[0].hash, HELLO_DIGEST);

    let files = read_all_files(&vec![("a.txt".to_string(), Some("world".to_string()))]);
    let store = perform_commit(&store, "second".to_string(), files).unwrap();
    let log = load(&store).unwrap();
    assert_eq!(log.commits.len(), 2);
    assert_eq!(log.commits[0].message, "first");
    assert_eq!(log.commits[0].files[0].hash, HELLO_DIGEST);
    assert_eq!(log.commits[1].message, "second");
    assert_eq!(log.commits[1].files[0].hash, WORLD_DIGEST);
    assert_ne!(log.commits[0].files[0].hash, log.commits[1].files[0].hash);
}

#[test]
fn commit_on_corrupt_store_fails() {
    let files = Vec::new();
    let r = perform_commit("broken", "msg".to_string(), files);
    assert_eq!(r.unwrap_err(), RepoError::CorruptStore);
}

#[test]
fn render_lists_newest_first() {
    let mut log = CommitLog::new();
    for (id, msg, ts) in [("a", "one", "t1"), ("b", "two", "t2"), ("c", "three", "t3")] {
        log.append(Commit {
            id: id.to_string(),
            message: msg.to_string(),
            timestamp: ts.to_string(),
            files: Vec::new(),
        });
    }
    let entries = render(log);
    assert_eq!(entries.len(), 3);
    assert_eq!(entries[0].id, "c");
    assert_eq!(entries[0].message, "three");
    assert_eq!(entries[0].timestamp, "t3");
    assert_eq!(entries[1].id, "b");
    assert_eq!(entries[2].id, "a");
    assert_eq!(entries[2].message, "one");
}

#[test]
fn render_of_empty_history_is_empty() {
    let entries = render(CommitLog::new());
    assert_eq!(entries.len(), 0);
}

#[test]
fn timestamp_has_the_expected_shape() {
    let ts = minigit::clock::current_timestamp();
    let bytes = ts.as_bytes();
    assert_eq!(bytes.len(), 19);
    assert_eq!(bytes[4], b'-');
    assert_eq!(bytes[7], b'-');
    assert_eq!(bytes[10], b' ');
    assert_eq!(bytes[13], b':');
    assert_eq!(bytes[16], b':');
}
