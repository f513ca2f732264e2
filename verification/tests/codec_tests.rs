use minigit::codec::{parse_store, serialize_log};
use minigit::model::{Commit, CommitLog, FileSnapshot};
use minigit::RepoError;

fn sample_log() -> CommitLog {
    let files = vec![
        FileSnapshot { name: "a.txt".to_string(), hash: "00ff".to_string() },
        FileSnapshot { name: "dir name.txt".to_string(), hash: "ab12".to_string() },
    ];
    let commits = vec![
        Commit {
            id: "deadbeef".to_string(),
            message: "first commit".to_string(),
            timestamp: "2024-01-02 03:04:05".to_string(),
            files,
        },
        Commit {
            id: "1".to_string(),
            message: "quote \" backslash \\ newline \n tab \t done".to_string(),
            timestamp: "2024-01-02 03:04:06".to_string(),
            files: Vec::new(),
        },
    ];
    CommitLog { commits }
}

#[test]
fn serialize_empty_log_is_bracket_pair() {
    let log = CommitLog::new();
    assert_eq!(serialize_log(&log), "[]");
}

#[test]
fn parse_empty_log() {
    let log = parse_store("[]").unwrap();
    assert_eq!(log.commits.len(), 0);
}

#[test]
fn round_trip_preserves_every_field() {
    let log = sample_log();
    let text = serialize_log(&log);
    let back = parse_store(&text).unwrap();
    assert_eq!(back.commits.len(), 2);
    assert_eq!(back.commits[0].id, "deadbeef");
    assert_eq!(back.commits[0].message, "first commit");
    assert_eq!(back.commits[0].timestamp, "2024-01-02 03:04:05");
    assert_eq!(back.commits[0].files.len(), 2);
    assert_eq!(back.commits[0].files[0].name, "a.txt");
    assert_eq!(back.commits[0].files[0].hash, "00ff");
    assert_eq!(back.commits[0].files[1].name, "dir name.txt");
    assert_eq!(back.commits[0].files[1].hash, "ab12");
    assert_eq!(back.commits[1].id, "1");
    assert_eq!(back.commits[1].message, "quote \" backslash \\ newline \n tab \t done");
    assert_eq!(back.commits[1].timestamp, "2024-01-02 03:04:06");
    assert_eq!(back.commits[1].files.len(), 0);
}

#[test]
fn reserialize_after_parse_is_identical() {
    let log = sample_log();
    let text = serialize_log(&log);
    let back = parse_store(&text).unwrap();
    assert_eq!(serialize_log(&back), text);
}

#[test]
fn serialized_store_is_valid_json() {
    let log = sample_log();
    let text = serialize_log(&log);
    let value: serde_json::Value = serde_json::from_str(&text).unwrap();
    let arr = value.as_array().unwrap();
    assert_eq!(arr.len(), 2);
    assert_eq!(arr[0].get("id").unwrap().as_str().unwrap(), "deadbeef");
    assert_eq!(arr[0].get("message").unwrap().as_str().unwrap(), "first commit");
    assert_eq!(arr[0].get("timestamp").unwrap().as_str().unwrap(), "2024-01-02 03:04:05");
    let files = arr[0].get("files").unwrap().as_array().unwrap();
    assert_eq!(files.len(), 2);
    assert_eq!(files[0].get("name").unwrap().as_str().unwrap(), "a.txt");
    assert_eq!(files[0].get("hash").unwrap().as_str().unwrap(), "00ff");
    assert_eq!(
        arr[1].get("message").unwrap().as_str().unwrap(),
        "quote \" backslash \\ newline \n tab \t done"
    );
}

#[test]
fn control_characters_survive_the_round_trip() {
    let commits = vec![Commit {
        id: "0".to_string(),
        message: "\u{0}\u{1}\u{1f} ok".to_string(),
        timestamp: "t".to_string(),
        files: Vec::new(),
    }];
    let log = CommitLog { commits };
    let text = serialize_log(&log);
    let back = parse_store(&text).unwrap();
    assert_eq!(back.commits[0].message, "\u{0}\u{1}\u{1f} ok");
}

#[test]
fn garbage_is_reported_corrupt() {
    assert_eq!(parse_store("not a store").unwrap_err(), RepoError::CorruptStore);
    assert_eq!(parse_store("").unwrap_err(), RepoError::CorruptStore);
    assert_eq!(parse_store("{}").unwrap_err(), RepoError::CorruptStore);
    assert_eq!(parse_store("[]trailing").unwrap_err(), RepoError::CorruptStore);
    assert_eq!(parse_store("[").unwrap_err(), RepoError::CorruptStore);
}
