//! Snapshot building: turning walked (name, content) pairs into file
//! fingerprints, and the rule that keeps the metadata directory out of a
//! walk.

use vstd::prelude::*;
use crate::digest::{digest_of, hash_content};
use crate::model::{FileSnapshot, FileSnapshotModel};

verus! {

/// The content a walk records for one file: what was read, or empty
/// content where the file could not be read. A file that cannot be read
/// is deliberately snapshotted as empty rather than failing the walk.
pub open spec fn content_or_empty(c: Option<String>) -> Seq<char> {
    match c {
        Some(s) => s@,
        None => Seq::<char>::empty(),
    }
}

/// The snapshot recorded for one file: its base name and the fingerprint
/// of its content.
pub open spec fn snapshot_of(name: Seq<char>, content: Seq<char>) -> FileSnapshotModel {
    FileSnapshotModel { name: name, hash: digest_of(content) }
}

/// The snapshots recorded for a walked sequence of (name, content) pairs,
/// in walk order.
pub open spec fn snapshots_of(entries: Seq<(String, Option<String>)>) -> Seq<FileSnapshotModel> {
    entries.map(
        |i: int, e: (String, Option<String>)| snapshot_of(e.0@, content_or_empty(e.1)),
    )
}

/// The views of a built snapshot vector.
pub open spec fn snapshot_views(s: Seq<FileSnapshot>) -> Seq<FileSnapshotModel> {
    s.map(|i: int, f: FileSnapshot| f@)
}

/// Builds the snapshot for one walked file. `None` content stands for a
/// file that could not be read; it is fingerprinted as empty content.
pub fn snapshot_entry(name: &str, content: Option<&str>) -> (r: FileSnapshot)
    ensures
        r@ == snapshot_of(
            name@,
            match content {
                Some(s) => s@,
                None => Seq::<char>::empty(),
            },
        ),
{
    let hash = match content {
        Some(s) => hash_content(s),
        None => {
            let h = hash_content("");
            proof {
                reveal_strlit("");
                assert(""@ =~= Seq::<char>::empty());
            }
            h
        },
    };
    FileSnapshot { name: name.to_owned(), hash }
}

/// Builds the snapshots for every file a walk handed over, in walk order.
pub fn read_all_files(entries: &Vec<(String, Option<String>)>) -> (r: Vec<FileSnapshot>)
    ensures
        r@.len() == entries@.len(),
        snapshot_views(r@) == snapshots_of(entries@),
{
    let mut r: Vec<FileSnapshot> = Vec::new();
    let mut i: usize = 0;
    while i < entries.len()
        invariant
            0 <= i <= entries@.len(),
            r@.len() == i,
            forall|j: int|
                0 <= j < i ==> #[trigger] r@[j]@ == snapshot_of(
                    entries@[j].0@,
                    content_or_empty(entries@[j].1),
                ),
        decreases entries@.len() - i,
    {
        let pair: &(String, Option<String>) = &entries[i];
        let content: Option<&str> = match &pair.1 {
            Some(s) => Some(s.as_str()),
            None => None,
        };
        let snap = snapshot_entry(pair.0.as_str(), content);
        r.push(snap);
        i = i + 1;
    }
    proof {
        assert(snapshot_views(r@) =~= snapshots_of(entries@));
    }
    r
}

/// Two walks that hand over the same entries record the same snapshots.
pub proof fn lemma_snapshot_determinism(
    a: Seq<(String, Option<String>)>,
    b: Seq<(String, Option<String>)>,
)
    requires
        a == b,
    ensures
        snapshots_of(a) == snapshots_of(b),
{
}

/// Whether a relative path lies under the metadata directory: the path is
/// the directory name itself, or begins with it followed by a separator.
pub open spec fn excluded_spec(p: Seq<char>, m: Seq<char>) -> bool {
    p == m || (p.len() > m.len() && p.subrange(0, m.len() as int) == m && p[m.len() as int]
        == '/')
}

/// Decides whether a walk must skip a path: true exactly when the path's
/// first segment is the metadata directory name.
pub fn excluded_from_walk(path: &str, meta_dir: &str) -> (r: bool)
    ensures
        r == excluded_spec(path@, meta_dir@),
{
    let pn: usize = path.unicode_len();
    let mn: usize = meta_dir.unicode_len();
    if pn < mn {
        proof {
            assert(!excluded_spec(path@, meta_dir@));
        }
        return false;
    }
    let mut i: usize = 0;
    while i < mn
        invariant
            0 <= i <= mn,
            mn == meta_dir@.len(),
            pn == path@.len(),
            pn >= mn,
            forall|j: int| 0 <= j < i ==> path@[j] == meta_dir@[j],
        decreases mn - i,
    {
        if path.get_char(i) != meta_dir.get_char(i) {
            proof {
                assert(path@.subrange(0, mn as int) != meta_dir@) by {
                    assert(path@.subrange(0, mn as int)[i as int] != meta_dir@[i as int]);
                }
                assert(path@ != meta_dir@) by {
                    assert(path@[i as int] != meta_dir@[i as int]);
                }
            }
            return false;
        }
        i = i + 1;
    }
    if pn == mn {
        proof {
            assert(path@ =~= meta_dir@);
        }
        true
    } else {
        let sep = path.get_char(mn);
        proof {
            assert(path@.subrange(0, mn as int) =~= meta_dir@);
            assert(path@ != meta_dir@);
        }
        sep == '/'
    }
}

} // verus!
