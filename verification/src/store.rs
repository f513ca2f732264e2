//! The commit store and repository lifecycle: loading the persisted
//! history, appending commits, and first-time initialization.

use vstd::prelude::*;
use crate::RepoError;
use crate::clock::current_timestamp;
use crate::codec::{lemma_parse_of_ser, parse_log, parse_store, ser_log, serialize_log};
use crate::hex::hex_of_nat;
use crate::ident::fresh_id;
use crate::model::{Commit, CommitLog, CommitModel, FileSnapshot};
use crate::snapshot::snapshot_views;

verus! {

/// The reserved directory that holds the store; walks exclude it.
pub fn metadata_dir_name() -> (r: String)
    ensures
        r@ == ".minigit"@,
{
    ".minigit".to_owned()
}

/// The store file inside the metadata directory.
pub fn store_file_name() -> (r: String)
    ensures
        r@ == "commits.json"@,
{
    "commits.json".to_owned()
}

/// The guard every operation runs first: the repository must exist.
pub fn ensure_initialized(repo_exists: bool) -> (r: Result<(), RepoError>)
    ensures
        repo_exists ==> r is Ok,
        !repo_exists ==> r == Err::<(), RepoError>(RepoError::NotInitialized),
{
    if repo_exists {
        Ok(())
    } else {
        Err(RepoError::NotInitialized)
    }
}

/// What initialization does to the store file's content: where the file
/// is absent it becomes the empty history; where it is present it is
/// left exactly as it was.
pub open spec fn init_step(store: Option<Seq<char>>) -> Option<Seq<char>> {
    match store {
        None => Some(ser_log(Seq::<CommitModel>::empty())),
        Some(c) => Some(c),
    }
}

/// Initializing twice leaves the store content exactly as initializing
/// once, whatever state it started from.
pub proof fn lemma_init_idempotent(store: Option<Seq<char>>)
    ensures
        init_step(init_step(store)) == init_step(store),
{
}

/// A fresh store holds the two-character empty history.
pub proof fn lemma_empty_store_form()
    ensures
        ser_log(Seq::<CommitModel>::empty()) == "[]"@,
{
}

/// The content written to a fresh store: the serialized empty history.
pub fn init_content() -> (r: String)
    ensures
        r@ == ser_log(Seq::<CommitModel>::empty()),
        Some(r@) == init_step(None),
{
    let log = CommitLog::new();
    serialize_log(&log)
}

/// One initialization step on the store file's content. Takes the
/// current content (`None` where the file is absent), and returns the
/// content after initialization together with whether a fresh store was
/// created; existing content is never touched.
pub fn initialize(existing: Option<String>) -> (r: (String, bool))
    ensures
        Some(r.0@) == init_step(
            match existing {
                Some(s) => Some(s@),
                None => None,
            },
        ),
        r.1 == (existing is None),
{
    match existing {
        None => (init_content(), true),
        Some(s) => (s, false),
    }
}

/// Loads the whole history from the store file's content. Content that
/// is not a well-formed store is reported corrupt.
pub fn load(content: &str) -> (r: Result<CommitLog, RepoError>)
    ensures
        parse_log(content@) matches Some(cs) ==> r matches Ok(log) && log@ == cs,
        parse_log(content@) is None ==> r == Err::<CommitLog, RepoError>(RepoError::CorruptStore),
{
    parse_store(content)
}

/// Builds a commit: a fresh random identifier rendered in hexadecimal,
/// the current local time, the message, and the snapshots as handed in.
pub fn build_commit(message: String, files: Vec<FileSnapshot>) -> (c: Commit)
    ensures
        c@.message == message@,
        c@.files == snapshot_views(files@),
        exists|n: u64| c@.id == hex_of_nat(n as nat),
{
    let id = fresh_id();
    let timestamp = current_timestamp();
    let c = Commit { id, message, timestamp, files };
    proof {
        assert(c@.files =~= snapshot_views(files@));
    }
    c
}

/// The compute core of a commit operation: parse the store content,
/// append a fresh commit carrying the message and snapshots, and
/// serialize the grown history back. Succeeds on exactly the contents
/// that parse; the result parses back to the grown history.
pub fn perform_commit(content: &str, message: String, files: Vec<FileSnapshot>) -> (r: Result<
    String,
    RepoError,
>)
    ensures
        parse_log(content@) is None ==> r == Err::<String, RepoError>(RepoError::CorruptStore),
        parse_log(content@) matches Some(cs) ==> r matches Ok(out) && (exists|c: CommitModel|
            {
                &&& #[trigger] c.message == message@
                &&& c.files == snapshot_views(files@)
                &&& (exists|n: u64| c.id == hex_of_nat(n as nat))
                &&& out@ == ser_log(cs.push(c))
                &&& parse_log(out@) == Some(cs.push(c))
            }),
{
    match parse_store(content) {
        Err(_) => Err(RepoError::CorruptStore),
        Ok(mut log) => {
            let ghost cs = log@;
            let c = build_commit(message, files);
            let ghost cm = c@;
            log.append(c);
            let out = serialize_log(&log);
            proof {
                lemma_parse_of_ser(cs.push(cm));
                assert(log@ == cs.push(cm));
                assert(out@ == ser_log(cs.push(cm)));
            }
            Ok(out)
        },
    }
}

/// Appending never disturbs history: the grown store holds the old
/// sequence with the new commit last; the length grows by exactly one
/// and every prior entry is unchanged.
pub proof fn lemma_append_monotonic(cs: Seq<CommitModel>, c: CommitModel)
    ensures
        parse_log(ser_log(cs.push(c))) == Some(cs.push(c)),
        cs.push(c).len() == cs.len() + 1,
        cs.push(c).last() == c,
        forall|i: int| 0 <= i < cs.len() ==> cs.push(c)[i] == cs[i],
{
    lemma_parse_of_ser(cs.push(c));
}

} // verus!
