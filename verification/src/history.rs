//! The history reader: replaying stored commits newest first.

use vstd::prelude::*;
use crate::model::{Commit, CommitLog, CommitModel};

verus! {

/// Mathematical model of one display record.
pub ghost struct LogEntryModel {
    pub id: Seq<char>,
    pub timestamp: Seq<char>,
    pub message: Seq<char>,
}

/// One display record of the history: what a log listing shows of a
/// commit.
pub struct LogEntry {
    pub id: String,
    pub timestamp: String,
    pub message: String,
}

impl View for LogEntry {
    type V = LogEntryModel;

    open spec fn view(&self) -> LogEntryModel {
        LogEntryModel { id: self.id@, timestamp: self.timestamp@, message: self.message@ }
    }
}

/// The display record of a commit.
pub open spec fn entry_of(c: CommitModel) -> LogEntryModel {
    LogEntryModel { id: c.id, timestamp: c.timestamp, message: c.message }
}

/// Replays the history newest first: the records come in strictly
/// reverse insertion order, one for each stored commit.
pub fn render(log: CommitLog) -> (r: Vec<LogEntry>)
    ensures
        r@.len() == log@.len(),
        forall|i: int|
            0 <= i < r@.len() ==> #[trigger] r@[i]@ == entry_of(log@[log@.len() - 1 - i]),
{
    let mut commits = log.commits;
    let ghost orig = commits@;
    proof {
        assert(commits@ =~= orig.subrange(0, commits@.len() as int));
    }
    let mut r: Vec<LogEntry> = Vec::new();
    while commits.len() > 0
        invariant
            commits@ == orig.subrange(0, commits@.len() as int),
            r@.len() + commits@.len() == orig.len(),
            forall|i: int|
                0 <= i < r@.len() ==> #[trigger] r@[i]@ == entry_of(orig[orig.len() - 1 - i]@),
        decreases commits@.len(),
    {
        let ghost k: int = commits@.len() as int;
        let c = commits.pop().unwrap();
        proof {
            assert(c == orig.subrange(0, k)[k - 1]);
            assert(c == orig[k - 1]);
            assert(commits@ =~= orig.subrange(0, k - 1));
        }
        r.push(LogEntry { id: c.id, timestamp: c.timestamp, message: c.message });
        proof {
            assert(r@[r@.len() - 1]@ == entry_of(orig[k - 1]@));
            assert(orig.len() - 1 - (r@.len() - 1) == k - 1);
        }
    }
    proof {
        assert(forall|i: int|
            0 <= i < orig.len() ==> log@[i] == #[trigger] orig[i]@);
    }
    r
}

} // verus!
