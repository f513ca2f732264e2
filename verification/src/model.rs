//! The data model: file snapshots, commits, and the commit log.

use vstd::prelude::*;

verus! {

/// Mathematical model of one file snapshot: a base file name and the
/// hexadecimal digest of the file's content.
pub ghost struct FileSnapshotModel {
    pub name: Seq<char>,
    pub hash: Seq<char>,
}

/// One file's content fingerprint at commit time.
#[derive(Debug)]
pub struct FileSnapshot {
    pub name: String,
    pub hash: String,
}

impl View for FileSnapshot {
    type V = FileSnapshotModel;

    open spec fn view(&self) -> FileSnapshotModel {
        FileSnapshotModel { name: self.name@, hash: self.hash@ }
    }
}

/// Mathematical model of a commit.
pub ghost struct CommitModel {
    pub id: Seq<char>,
    pub message: Seq<char>,
    pub timestamp: Seq<char>,
    pub files: Seq<FileSnapshotModel>,
}

/// An immutable, identified, timestamped snapshot plus a human message.
#[derive(Debug)]
pub struct Commit {
    pub id: String,
    pub message: String,
    pub timestamp: String,
    pub files: Vec<FileSnapshot>,
}

impl View for Commit {
    type V = CommitModel;

    open spec fn view(&self) -> CommitModel {
        CommitModel {
            id: self.id@,
            message: self.message@,
            timestamp: self.timestamp@,
            files: self.files@.map(|i: int, f: FileSnapshot| f@),
        }
    }
}

/// The ordered history of one repository, oldest commit first.
#[derive(Debug)]
pub struct CommitLog {
    pub commits: Vec<Commit>,
}

impl View for CommitLog {
    type V = Seq<CommitModel>;

    open spec fn view(&self) -> Seq<CommitModel> {
        self.commits@.map(|i: int, c: Commit| c@)
    }
}

impl CommitLog {
    /// The empty history.
    pub fn new() -> (r: CommitLog)
        ensures
            r@ == Seq::<CommitModel>::empty(),
    {
        let log = CommitLog { commits: Vec::new() };
        proof {
            assert(log@ =~= Seq::<CommitModel>::empty());
        }
        log
    }

    /// How many commits the history holds.
    pub fn len(&self) -> (n: usize)
        ensures
            n == self@.len(),
    {
        self.commits.len()
    }

    /// Appends a commit at the end of the history; no earlier entry moves.
    pub fn append(&mut self, c: Commit)
        ensures
            final(self)@ =~= old(self)@.push(c@),
    {
        self.commits.push(c);
    }
}

} // verus!
