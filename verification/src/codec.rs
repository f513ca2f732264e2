//! The store codec: the textual form of the commit history, its
//! serializer and its parser, and the proof that the two are inverse.
//!
//! The store file holds a JSON array of commit objects. The serializer
//! writes the canonical form — no inter-token whitespace, strings with
//! `"` and `\` and control characters escaped — and the parser accepts
//! exactly that canonical form, so that serializing and parsing are
//! inverse in both directions.

use vstd::prelude::*;
use crate::hex::{hex_digit, hex_digit_of};
use crate::model::{Commit, CommitLog, CommitModel, FileSnapshot, FileSnapshotModel};
use crate::snapshot::snapshot_views;
use crate::strutil::push_char;

verus! {

/// The views of the commits in a vector, in order.
pub open spec fn commit_views(s: Seq<Commit>) -> Seq<CommitModel> {
    s.map(|i: int, c: Commit| c@)
}

// ----- escaping string content -----

/// Whether a character must be written escaped inside a string.
pub open spec fn is_control(c: char) -> bool {
    (c as u32) < 32
}

/// The canonical escape of one character of string content.
pub open spec fn esc_char(c: char) -> Seq<char> {
    if c == '"' {
        seq!['\\', '"']
    } else if c == '\\' {
        seq!['\\', '\\']
    } else if is_control(c) {
        seq![
            '\\',
            'u',
            '0',
            '0',
            hex_digit_of(((c as u32) / 16) as nat),
            hex_digit_of(((c as u32) % 16) as nat),
        ]
    } else {
        seq![c]
    }
}

/// String content with every character escaped canonically.
pub open spec fn esc_str(s: Seq<char>) -> Seq<char>
    decreases s.len(),
{
    if s.len() == 0 {
        Seq::<char>::empty()
    } else {
        esc_char(s[0]) + esc_str(s.drop_first())
    }
}

proof fn lemma_esc_str_push(s: Seq<char>, c: char)
    ensures
        esc_str(s.push(c)) == esc_str(s) + esc_char(c),
    decreases s.len(),
{
    if s.len() == 0 {
        assert(s.push(c)[0] == c);
        assert(s.push(c).drop_first() =~= Seq::<char>::empty());
        assert(esc_str(s.push(c)) == esc_char(c) + esc_str(Seq::<char>::empty()));
        assert(esc_str(s.push(c)) =~= esc_str(s) + esc_char(c));
    } else {
        assert(s.push(c)[0] == s[0]);
        assert(s.push(c).drop_first() =~= s.drop_first().push(c));
        lemma_esc_str_push(s.drop_first(), c);
        assert(esc_str(s.push(c)) =~= esc_str(s) + esc_char(c));
    }
}

// ----- the canonical serialized form -----

/// A string value: quoted, escaped content.
pub open spec fn ser_string(s: Seq<char>) -> Seq<char> {
    seq!['"'] + esc_str(s) + seq!['"']
}

/// One file snapshot object.
pub open spec fn ser_snapshot(f: FileSnapshotModel) -> Seq<char> {
    "{\"name\":"@ + ser_string(f.name) + ",\"hash\":"@ + ser_string(f.hash) + "}"@
}

/// The snapshots after the first, each preceded by a comma.
pub open spec fn ser_snapshots_rest(fs: Seq<FileSnapshotModel>) -> Seq<char>
    decreases fs.len(),
{
    if fs.len() == 0 {
        Seq::<char>::empty()
    } else {
        ","@ + ser_snapshot(fs[0]) + ser_snapshots_rest(fs.drop_first())
    }
}

/// The array of a commit's file snapshots.
pub open spec fn ser_snapshots(fs: Seq<FileSnapshotModel>) -> Seq<char> {
    if fs.len() == 0 {
        "[]"@
    } else {
        "["@ + ser_snapshot(fs[0]) + ser_snapshots_rest(fs.drop_first()) + "]"@
    }
}

/// One commit object.
pub open spec fn ser_commit(c: CommitModel) -> Seq<char> {
    "{\"id\":"@ + ser_string(c.id) + ",\"message\":"@ + ser_string(c.message)
        + ",\"timestamp\":"@ + ser_string(c.timestamp) + ",\"files\":"@ + ser_snapshots(c.files)
        + "}"@
}

/// The commits after the first, each preceded by a comma.
pub open spec fn ser_commits_rest(cs: Seq<CommitModel>) -> Seq<char>
    decreases cs.len(),
{
    if cs.len() == 0 {
        Seq::<char>::empty()
    } else {
        ","@ + ser_commit(cs[0]) + ser_commits_rest(cs.drop_first())
    }
}

/// The whole store: the array of all commits, oldest first. An empty
/// history serializes to the two characters `[]`.
pub open spec fn ser_log(cs: Seq<CommitModel>) -> Seq<char> {
    if cs.len() == 0 {
        "[]"@
    } else {
        "["@ + ser_commit(cs[0]) + ser_commits_rest(cs.drop_first()) + "]"@
    }
}

// ----- the parser, as a mathematical function -----

/// Whether a character is a lowercase hexadecimal digit.
pub open spec fn is_lower_hex(c: char) -> bool {
    (48 <= (c as u32) <= 57) || (97 <= (c as u32) <= 102)
}

/// The value of a lowercase hexadecimal digit.
pub open spec fn hex_val(c: char) -> int
    recommends
        is_lower_hex(c),
{
    if 48 <= (c as u32) <= 57 {
        (c as u32) - 48
    } else {
        (c as u32) - 87
    }
}

/// Consumes an exact literal from the head of the input.
pub open spec fn parse_lit(s: Seq<char>, lit: Seq<char>) -> Option<Seq<char>> {
    if lit.len() <= s.len() && s.subrange(0, lit.len() as int) == lit {
        Some(s.skip(lit.len() as int))
    } else {
        None
    }
}

/// Prepends a decoded character to a string-content parse.
pub open spec fn cons_char(c: char, r: Option<(Seq<char>, Seq<char>)>) -> Option<
    (Seq<char>, Seq<char>),
> {
    match r {
        Some(p) => Some((seq![c] + p.0, p.1)),
        None => None,
    }
}

/// Parses string content up to and including the closing quote,
/// decoding exactly the canonical escapes the serializer writes.
pub open spec fn parse_str_body(s: Seq<char>) -> Option<(Seq<char>, Seq<char>)>
    decreases s.len(),
{
    if s.len() == 0 {
        None
    } else if s[0] == '"' {
        Some((Seq::<char>::empty(), s.drop_first()))
    } else if s[0] == '\\' {
        if s.len() >= 2 && s[1] == '"' {
            cons_char('"', parse_str_body(s.skip(2)))
        } else if s.len() >= 2 && s[1] == '\\' {
            cons_char('\\', parse_str_body(s.skip(2)))
        } else if s.len() >= 6 && s[1] == 'u' && s[2] == '0' && s[3] == '0' && is_lower_hex(s[4])
            && is_lower_hex(s[5]) && 16 * hex_val(s[4]) + hex_val(s[5]) < 32 {
            cons_char(
                ((16 * hex_val(s[4]) + hex_val(s[5])) as u8) as char,
                parse_str_body(s.skip(6)),
            )
        } else {
            None
        }
    } else if (s[0] as u32) >= 32 {
        cons_char(s[0], parse_str_body(s.drop_first()))
    } else {
        None
    }
}

/// Parses a quoted string value.
pub open spec fn parse_string(s: Seq<char>) -> Option<(Seq<char>, Seq<char>)> {
    if s.len() >= 1 && s[0] == '"' {
        parse_str_body(s.drop_first())
    } else {
        None
    }
}

/// Parses one file snapshot object.
pub open spec fn parse_snapshot(s: Seq<char>) -> Option<(FileSnapshotModel, Seq<char>)> {
    match parse_lit(s, "{\"name\":"@) {
        None => None,
        Some(s1) => match parse_string(s1) {
            None => None,
            Some((name, s2)) => match parse_lit(s2, ",\"hash\":"@) {
                None => None,
                Some(s3) => match parse_string(s3) {
                    None => None,
                    Some((hash, s4)) => match parse_lit(s4, "}"@) {
                        None => None,
                        Some(s5) => Some((FileSnapshotModel { name, hash }, s5)),
                    },
                },
            },
        },
    }
}

pub proof fn lemma_parse_lit_le(s: Seq<char>, lit: Seq<char>)
    ensures
        parse_lit(s, lit) matches Some(r) ==> r.len() <= s.len(),
{
}

pub proof fn lemma_parse_str_body_shrinks(s: Seq<char>)
    ensures
        parse_str_body(s) matches Some(p) ==> p.1.len() < s.len(),
    decreases s.len(),
{
    if s.len() > 0 && s[0] != '"' {
        if s[0] == '\\' {
            if s.len() >= 2 && (s[1] == '"' || s[1] == '\\') {
                lemma_parse_str_body_shrinks(s.skip(2));
            } else if s.len() >= 6 {
                lemma_parse_str_body_shrinks(s.skip(6));
            }
        } else {
            lemma_parse_str_body_shrinks(s.drop_first());
        }
    }
}

pub proof fn lemma_parse_string_shrinks(s: Seq<char>)
    ensures
        parse_string(s) matches Some(p) ==> p.1.len() < s.len(),
{
    if s.len() >= 1 && s[0] == '"' {
        lemma_parse_str_body_shrinks(s.drop_first());
    }
}

pub proof fn lemma_parse_snapshot_shrinks(s: Seq<char>)
    ensures
        parse_snapshot(s) matches Some(p) ==> p.1.len() < s.len(),
{
    if let Some(s1) = parse_lit(s, "{\"name\":"@) {
        lemma_parse_lit_le(s, "{\"name\":"@);
        lemma_parse_string_shrinks(s1);
        if let Some((name, s2)) = parse_string(s1) {
            lemma_parse_lit_le(s2, ",\"hash\":"@);
            if let Some(s3) = parse_lit(s2, ",\"hash\":"@) {
                lemma_parse_string_shrinks(s3);
                if let Some((hash, s4)) = parse_string(s3) {
                    lemma_parse_lit_le(s4, "}"@);
                }
            }
        }
    }
}

/// Parses the file snapshots after the first: either the closing bracket,
/// or a comma followed by a snapshot and the rest.
pub open spec fn parse_files_rest(s: Seq<char>) -> Option<(Seq<FileSnapshotModel>, Seq<char>)>
    decreases s.len(),
    via parse_files_rest_dec
{
    if s.len() == 0 {
        None
    } else if s[0] == ']' {
        Some((Seq::<FileSnapshotModel>::empty(), s.drop_first()))
    } else if s[0] == ',' {
        match parse_snapshot(s.drop_first()) {
            None => None,
            Some((f, s1)) => match parse_files_rest(s1) {
                None => None,
                Some((fs, s2)) => Some((seq![f] + fs, s2)),
            },
        }
    } else {
        None
    }
}

#[via_fn]
proof fn parse_files_rest_dec(s: Seq<char>) {
    if s.len() > 0 && s[0] != ']' && s[0] == ',' {
        lemma_parse_snapshot_shrinks(s.drop_first());
    }
}

/// Parses a commit's file snapshot array.
pub open spec fn parse_files(s: Seq<char>) -> Option<(Seq<FileSnapshotModel>, Seq<char>)> {
    if s.len() >= 1 && s[0] == '[' {
        let t = s.drop_first();
        if t.len() >= 1 && t[0] == ']' {
            Some((Seq::<FileSnapshotModel>::empty(), t.drop_first()))
        } else {
            match parse_snapshot(t) {
                None => None,
                Some((f, s1)) => match parse_files_rest(s1) {
                    None => None,
                    Some((fs, s2)) => Some((seq![f] + fs, s2)),
                },
            }
        }
    } else {
        None
    }
}

pub proof fn lemma_parse_files_rest_shrinks(s: Seq<char>)
    ensures
        parse_files_rest(s) matches Some(p) ==> p.1.len() < s.len(),
    decreases s.len(),
{
    if s.len() > 0 && s[0] != ']' && s[0] == ',' {
        lemma_parse_snapshot_shrinks(s.drop_first());
        if let Some((f, s1)) = parse_snapshot(s.drop_first()) {
            lemma_parse_files_rest_shrinks(s1);
        }
    }
}

pub proof fn lemma_parse_files_shrinks(s: Seq<char>)
    ensures
        parse_files(s) matches Some(p) ==> p.1.len() < s.len(),
{
    if s.len() >= 1 && s[0] == '[' {
        let t = s.drop_first();
        if !(t.len() >= 1 && t[0] == ']') {
            lemma_parse_snapshot_shrinks(t);
            if let Some((f, s1)) = parse_snapshot(t) {
                lemma_parse_files_rest_shrinks(s1);
            }
        }
    }
}

/// Parses one commit object.
pub open spec fn parse_commit(s: Seq<char>) -> Option<(CommitModel, Seq<char>)> {
    match parse_lit(s, "{\"id\":"@) {
        None => None,
        Some(s1) => match parse_string(s1) {
            None => None,
            Some((id, s2)) => match parse_lit(s2, ",\"message\":"@) {
                None => None,
                Some(s3) => match parse_string(s3) {
                    None => None,
                    Some((message, s4)) => match parse_lit(s4, ",\"timestamp\":"@) {
                        None => None,
                        Some(s5) => match parse_string(s5) {
                            None => None,
                            Some((timestamp, s6)) => match parse_lit(s6, ",\"files\":"@) {
                                None => None,
                                Some(s7) => match parse_files(s7) {
                                    None => None,
                                    Some((files, s8)) => match parse_lit(s8, "}"@) {
                                        None => None,
                                        Some(s9) => Some(
                                            (CommitModel { id, message, timestamp, files }, s9),
                                        ),
                                    },
                                },
                            },
                        },
                    },
                },
            },
        },
    }
}

pub proof fn lemma_parse_commit_shrinks(s: Seq<char>)
    ensures
        parse_commit(s) matches Some(p) ==> p.1.len() < s.len(),
{
    if let Some(s1) = parse_lit(s, "{\"id\":"@) {
        lemma_parse_lit_le(s, "{\"id\":"@);
        lemma_parse_string_shrinks(s1);
        if let Some((id, s2)) = parse_string(s1) {
            lemma_parse_lit_le(s2, ",\"message\":"@);
            if let Some(s3) = parse_lit(s2, ",\"message\":"@) {
                lemma_parse_string_shrinks(s3);
                if let Some((message, s4)) = parse_string(s3) {
                    lemma_parse_lit_le(s4, ",\"timestamp\":"@);
                    if let Some(s5) = parse_lit(s4, ",\"timestamp\":"@) {
                        lemma_parse_string_shrinks(s5);
                        if let Some((timestamp, s6)) = parse_string(s5) {
                            lemma_parse_lit_le(s6, ",\"files\":"@);
                            if let Some(s7) = parse_lit(s6, ",\"files\":"@) {
                                lemma_parse_files_shrinks(s7);
                                if let Some((files, s8)) = parse_files(s7) {
                                    lemma_parse_lit_le(s8, "}"@);
                                }
                            }
                        }
                    }
                }
            }
        }
    }
}

/// Parses the commits after the first: either the closing bracket, or a
/// comma followed by a commit and the rest.
pub open spec fn parse_commits_rest(s: Seq<char>) -> Option<(Seq<CommitModel>, Seq<char>)>
    decreases s.len(),
    via parse_commits_rest_dec
{
    if s.len() == 0 {
        None
    } else if s[0] == ']' {
        Some((Seq::<CommitModel>::empty(), s.drop_first()))
    } else if s[0] == ',' {
        match parse_commit(s.drop_first()) {
            None => None,
            Some((c, s1)) => match parse_commits_rest(s1) {
                None => None,
                Some((cs, s2)) => Some((seq![c] + cs, s2)),
            },
        }
    } else {
        None
    }
}

#[via_fn]
proof fn parse_commits_rest_dec(s: Seq<char>) {
    if s.len() > 0 && s[0] != ']' && s[0] == ',' {
        lemma_parse_commit_shrinks(s.drop_first());
    }
}

/// Parses the commit array that opens the store.
pub open spec fn parse_log_prefix(s: Seq<char>) -> Option<(Seq<CommitModel>, Seq<char>)> {
    if s.len() >= 1 && s[0] == '[' {
        let t = s.drop_first();
        if t.len() >= 1 && t[0] == ']' {
            Some((Seq::<CommitModel>::empty(), t.drop_first()))
        } else {
            match parse_commit(t) {
                None => None,
                Some((c, s1)) => match parse_commits_rest(s1) {
                    None => None,
                    Some((cs, s2)) => Some((seq![c] + cs, s2)),
                },
            }
        }
    } else {
        None
    }
}

/// Parses a whole store text: the commit array with nothing after it.
/// `None` means the text is not a well-formed store.
pub open spec fn parse_log(s: Seq<char>) -> Option<Seq<CommitModel>> {
    match parse_log_prefix(s) {
        None => None,
        Some((cs, rest)) => if rest.len() == 0 {
            Some(cs)
        } else {
            None
        },
    }
}

// ----- the round trip: parsing recovers what was serialized -----

proof fn lemma_hex_digit_val(k: nat)
    requires
        k < 16,
    ensures
        is_lower_hex(hex_digit_of(k)),
        hex_val(hex_digit_of(k)) == k,
{
}

proof fn lemma_hex_val_digit(c: char)
    requires
        is_lower_hex(c),
    ensures
        hex_digit_of(hex_val(c) as nat) == c,
{
}

proof fn lemma_control_char_decode(c: char)
    requires
        (c as u32) < 32,
    ensures
        ({
            let v = c as u32;
            let d4 = hex_digit_of((v / 16) as nat);
            let d5 = hex_digit_of((v % 16) as nat);
            &&& is_lower_hex(d4)
            &&& is_lower_hex(d5)
            &&& 16 * hex_val(d4) + hex_val(d5) == v
            &&& ((16 * hex_val(d4) + hex_val(d5)) as u8) as char == c
        }),
{
    let v = c as u32;
    lemma_hex_digit_val((v / 16) as nat);
    lemma_hex_digit_val((v % 16) as nat);
    let d4 = hex_digit_of((v / 16) as nat);
    let d5 = hex_digit_of((v % 16) as nat);
    assert(16 * hex_val(d4) + hex_val(d5) == v);
    assert((16 * hex_val(d4) + hex_val(d5)) as u8 == v as u8);
    assert(((v as u32) as u8) as char == c);
}

/// Splitting a concatenation at its first element.
proof fn lemma_drop_concat(a: Seq<char>, b: Seq<char>)
    requires
        a.len() >= 1,
    ensures
        (a + b).len() >= 1,
        (a + b)[0] == a[0],
        (a + b).drop_first() == a.drop_first() + b,
        a.len() == 1 ==> (a + b).drop_first() == b,
{
    assert((a + b).drop_first() =~= a.drop_first() + b);
    if a.len() == 1 {
        assert(a.drop_first() + b =~= b);
    }
}

proof fn lemma_parse_lit_prefix(lit: Seq<char>, rest: Seq<char>)
    ensures
        parse_lit(lit + rest, lit) == Some(rest),
{
    let s = lit + rest;
    assert(s.subrange(0, lit.len() as int) =~= lit);
    assert(s.skip(lit.len() as int) =~= rest);
}

proof fn lemma_parse_str_body_of_esc(t: Seq<char>, rest: Seq<char>)
    ensures
        parse_str_body(esc_str(t) + seq!['"'] + rest) == Some((t, rest)),
    decreases t.len(),
{
    let s = esc_str(t) + seq!['"'] + rest;
    if t.len() == 0 {
        assert(s =~= seq!['"'] + rest);
        assert(s[0] == '"');
        lemma_drop_concat(seq!['"'], rest);
    } else {
        let c = t[0];
        let t2 = t.drop_first();
        let s2 = esc_str(t2) + seq!['"'] + rest;
        lemma_parse_str_body_of_esc(t2, rest);
        assert(esc_str(t) == esc_char(c) + esc_str(t2));
        assert(s =~= esc_char(c) + s2);
        if c == '"' {
            assert(s[0] == '\\' && s[1] == '"');
            assert(s.skip(2) =~= s2);
            assert(seq!['"'] + t2 =~= t);
        } else if c == '\\' {
            assert(s[0] == '\\' && s[1] == '\\');
            assert(s.skip(2) =~= s2);
            assert(seq!['\\'] + t2 =~= t);
        } else if is_control(c) {
            let v = c as u32;
            let d4 = hex_digit_of((v / 16) as nat);
            let d5 = hex_digit_of((v % 16) as nat);
            lemma_control_char_decode(c);
            assert(s[0] == '\\' && s[1] == 'u' && s[2] == '0' && s[3] == '0');
            assert(s[4] == d4 && s[5] == d5);
            assert(s.skip(6) =~= s2);
            assert(seq![c] + t2 =~= t);
        } else {
            assert(s[0] == c);
            assert((c as u32) >= 32);
            assert(s.drop_first() =~= s2);
            assert(seq![c] + t2 =~= t);
        }
    }
}

proof fn lemma_parse_string_of_ser(t: Seq<char>, rest: Seq<char>)
    ensures
        parse_string(ser_string(t) + rest) == Some((t, rest)),
{
    let s = ser_string(t) + rest;
    assert(s[0] == '"');
    assert(s.drop_first() =~= esc_str(t) + seq!['"'] + rest);
    lemma_parse_str_body_of_esc(t, rest);
}

/// Re-associates a serialized snapshot followed by a remainder.
proof fn lemma_ser_snapshot_unroll(f: FileSnapshotModel, rest: Seq<char>)
    ensures
        ser_snapshot(f) + rest == "{\"name\":"@ + (ser_string(f.name) + (",\"hash\":"@ + (
        ser_string(f.hash) + ("}"@ + rest)))),
{
    let a1 = "{\"name\":"@;
    let a2 = ser_string(f.name);
    let a3 = ",\"hash\":"@;
    let a4 = ser_string(f.hash);
    let a5 = "}"@;
    vstd::seq_lib::lemma_concat_associative(a1 + a2 + a3 + a4, a5, rest);
    vstd::seq_lib::lemma_concat_associative(a1 + a2 + a3, a4, a5 + rest);
    vstd::seq_lib::lemma_concat_associative(a1 + a2, a3, a4 + (a5 + rest));
    vstd::seq_lib::lemma_concat_associative(a1, a2, a3 + (a4 + (a5 + rest)));
}

proof fn lemma_parse_snapshot_of_ser(f: FileSnapshotModel, rest: Seq<char>)
    ensures
        parse_snapshot(ser_snapshot(f) + rest) == Some((f, rest)),
{
    let s = ser_snapshot(f) + rest;
    lemma_ser_snapshot_unroll(f, rest);
    let x2 = ",\"hash\":"@ + (ser_string(f.hash) + ("}"@ + rest));
    let x1 = ser_string(f.name) + x2;
    lemma_parse_lit_prefix("{\"name\":"@, x1);
    lemma_parse_string_of_ser(f.name, x2);
    let x4 = "}"@ + rest;
    let x3 = ser_string(f.hash) + x4;
    lemma_parse_lit_prefix(",\"hash\":"@, x3);
    lemma_parse_string_of_ser(f.hash, x4);
    lemma_parse_lit_prefix("}"@, rest);
    assert(FileSnapshotModel { name: f.name, hash: f.hash } == f);
}

#[verifier::rlimit(100)]
#[verifier::spinoff_prover]
proof fn lemma_parse_files_rest_of_ser(fs: Seq<FileSnapshotModel>, rest: Seq<char>)
    ensures
        parse_files_rest(ser_snapshots_rest(fs) + ("]"@ + rest)) == Some((fs, rest)),
    decreases fs.len(),
{
    reveal_strlit("]");
    reveal_strlit(",");
    let s = ser_snapshots_rest(fs) + ("]"@ + rest);
    if fs.len() == 0 {
        assert(s =~= "]"@ + rest);
        lemma_drop_concat("]"@, rest);
    } else {
        let f = fs[0];
        let tail = fs.drop_first();
        let r0 = ser_snapshots_rest(tail);
        assert(ser_snapshots_rest(fs) == ","@ + ser_snapshot(f) + r0);
        vstd::seq_lib::lemma_concat_associative(","@ + ser_snapshot(f), r0, "]"@ + rest);
        vstd::seq_lib::lemma_concat_associative(","@, ser_snapshot(f), r0 + ("]"@ + rest));
        let x1 = ser_snapshot(f) + (r0 + ("]"@ + rest));
        lemma_drop_concat(","@, x1);
        assert(s[0] == ',' && s[0] != ']' && s.drop_first() == x1);
        let x2 = r0 + ("]"@ + rest);
        lemma_parse_snapshot_of_ser(f, x2);
        lemma_parse_files_rest_of_ser(tail, rest);
        assert(seq![f] + tail =~= fs);
    }
}

#[verifier::rlimit(100)]
#[verifier::spinoff_prover]
proof fn lemma_parse_files_of_ser(fs: Seq<FileSnapshotModel>, rest: Seq<char>)
    ensures
        parse_files(ser_snapshots(fs) + rest) == Some((fs, rest)),
{
    reveal_strlit("[");
    reveal_strlit("[]");
    reveal_strlit("]");
    reveal_strlit("{\"name\":");
    let s = ser_snapshots(fs) + rest;
    if fs.len() == 0 {
        lemma_drop_concat("[]"@, rest);
        let t = s.drop_first();
        assert(t == "[]"@.drop_first() + rest);
        lemma_drop_concat("[]"@.drop_first(), rest);
        assert(t[0] == ']' && t.drop_first() == rest);
        assert(Seq::<FileSnapshotModel>::empty() =~= fs);
    } else {
        let f = fs[0];
        let tail = fs.drop_first();
        let r0 = ser_snapshots_rest(tail);
        assert(ser_snapshots(fs) == "["@ + ser_snapshot(f) + r0 + "]"@);
        vstd::seq_lib::lemma_concat_associative("["@ + ser_snapshot(f) + r0, "]"@, rest);
        vstd::seq_lib::lemma_concat_associative("["@ + ser_snapshot(f), r0, "]"@ + rest);
        vstd::seq_lib::lemma_concat_associative("["@, ser_snapshot(f), r0 + ("]"@ + rest));
        let x1 = ser_snapshot(f) + (r0 + ("]"@ + rest));
        lemma_drop_concat("["@, x1);
        assert(s[0] == '[' && s.drop_first() == x1);
        let x2 = r0 + ("]"@ + rest);
        lemma_ser_snapshot_unroll(f, x2);
        lemma_drop_concat("{\"name\":"@, ser_string(f.name) + (",\"hash\":"@ + (ser_string(
            f.hash,
        ) + ("}"@ + x2))));
        assert(x1[0] == '{' && x1[0] != ']');
        lemma_parse_snapshot_of_ser(f, x2);
        lemma_parse_files_rest_of_ser(tail, rest);
        assert(seq![f] + tail =~= fs);
    }
}

/// Re-associates a serialized commit followed by a remainder.
proof fn lemma_ser_commit_unroll(c: CommitModel, rest: Seq<char>)
    ensures
        ser_commit(c) + rest == "{\"id\":"@ + (ser_string(c.id) + (",\"message\":"@ + (
        ser_string(c.message) + (",\"timestamp\":"@ + (ser_string(c.timestamp) + (
        ",\"files\":"@ + (ser_snapshots(c.files) + ("}"@ + rest)))))))),
{
    let a1 = "{\"id\":"@;
    let a2 = ser_string(c.id);
    let a3 = ",\"message\":"@;
    let a4 = ser_string(c.message);
    let a5 = ",\"timestamp\":"@;
    let a6 = ser_string(c.timestamp);
    let a7 = ",\"files\":"@;
    let a8 = ser_snapshots(c.files);
    let a9 = "}"@;
    vstd::seq_lib::lemma_concat_associative(a1 + a2 + a3 + a4 + a5 + a6 + a7 + a8, a9, rest);
    vstd::seq_lib::lemma_concat_associative(a1 + a2 + a3 + a4 + a5 + a6 + a7, a8, a9 + rest);
    vstd::seq_lib::lemma_concat_associative(a1 + a2 + a3 + a4 + a5 + a6, a7, a8 + (a9 + rest));
    vstd::seq_lib::lemma_concat_associative(
        a1 + a2 + a3 + a4 + a5,
        a6,
        a7 + (a8 + (a9 + rest)),
    );
    vstd::seq_lib::lemma_concat_associative(
        a1 + a2 + a3 + a4,
        a5,
        a6 + (a7 + (a8 + (a9 + rest))),
    );
    vstd::seq_lib::lemma_concat_associative(
        a1 + a2 + a3,
        a4,
        a5 + (a6 + (a7 + (a8 + (a9 + rest)))),
    );
    vstd::seq_lib::lemma_concat_associative(
        a1 + a2,
        a3,
        a4 + (a5 + (a6 + (a7 + (a8 + (a9 + rest))))),
    );
    vstd::seq_lib::lemma_concat_associative(
        a1,
        a2,
        a3 + (a4 + (a5 + (a6 + (a7 + (a8 + (a9 + rest)))))),
    );
}

#[verifier::rlimit(100)]
#[verifier::spinoff_prover]
proof fn lemma_parse_commit_of_ser(c: CommitModel, rest: Seq<char>)
    ensures
        parse_commit(ser_commit(c) + rest) == Some((c, rest)),
{
    let s = ser_commit(c) + rest;
    lemma_ser_commit_unroll(c, rest);
    let x8 = "}"@ + rest;
    let x7 = ser_snapshots(c.files) + x8;
    let x6 = ",\"files\":"@ + x7;
    let x5 = ser_string(c.timestamp) + x6;
    let x4 = ",\"timestamp\":"@ + x5;
    let x3 = ser_string(c.message) + x4;
    let x2 = ",\"message\":"@ + x3;
    let x1 = ser_string(c.id) + x2;
    lemma_parse_lit_prefix("{\"id\":"@, x1);
    lemma_parse_string_of_ser(c.id, x2);
    lemma_parse_lit_prefix(",\"message\":"@, x3);
    lemma_parse_string_of_ser(c.message, x4);
    lemma_parse_lit_prefix(",\"timestamp\":"@, x5);
    lemma_parse_string_of_ser(c.timestamp, x6);
    lemma_parse_lit_prefix(",\"files\":"@, x7);
    lemma_parse_files_of_ser(c.files, x8);
    lemma_parse_lit_prefix("}"@, rest);
    assert(CommitModel {
        id: c.id,
        message: c.message,
        timestamp: c.timestamp,
        files: c.files,
    } == c);
}

#[verifier::rlimit(100)]
#[verifier::spinoff_prover]
proof fn lemma_parse_commits_rest_of_ser(cs: Seq<CommitModel>, rest: Seq<char>)
    ensures
        parse_commits_rest(ser_commits_rest(cs) + ("]"@ + rest)) == Some((cs, rest)),
    decreases cs.len(),
{
    reveal_strlit("]");
    reveal_strlit(",");
    let s = ser_commits_rest(cs) + ("]"@ + rest);
    if cs.len() == 0 {
        assert(s =~= "]"@ + rest);
        lemma_drop_concat("]"@, rest);
    } else {
        let c = cs[0];
        let tail = cs.drop_first();
        let r0 = ser_commits_rest(tail);
        assert(ser_commits_rest(cs) == ","@ + ser_commit(c) + r0);
        vstd::seq_lib::lemma_concat_associative(","@ + ser_commit(c), r0, "]"@ + rest);
        vstd::seq_lib::lemma_concat_associative(","@, ser_commit(c), r0 + ("]"@ + rest));
        let x1 = ser_commit(c) + (r0 + ("]"@ + rest));
        lemma_drop_concat(","@, x1);
        assert(s[0] == ',' && s[0] != ']' && s.drop_first() == x1);
        let x2 = r0 + ("]"@ + rest);
        lemma_parse_commit_of_ser(c, x2);
        lemma_parse_commits_rest_of_ser(tail, rest);
        assert(seq![c] + tail =~= cs);
    }
}

#[verifier::rlimit(100)]
#[verifier::spinoff_prover]
proof fn lemma_parse_log_prefix_of_ser(cs: Seq<CommitModel>, rest: Seq<char>)
    ensures
        parse_log_prefix(ser_log(cs) + rest) == Some((cs, rest)),
{
    reveal_strlit("[");
    reveal_strlit("[]");
    reveal_strlit("]");
    reveal_strlit("{\"id\":");
    let s = ser_log(cs) + rest;
    if cs.len() == 0 {
        lemma_drop_concat("[]"@, rest);
        let t = s.drop_first();
        assert(t == "[]"@.drop_first() + rest);
        lemma_drop_concat("[]"@.drop_first(), rest);
        assert(t[0] == ']' && t.drop_first() == rest);
        assert(Seq::<CommitModel>::empty() =~= cs);
    } else {
        let c = cs[0];
        let tail = cs.drop_first();
        let r0 = ser_commits_rest(tail);
        assert(ser_log(cs) == "["@ + ser_commit(c) + r0 + "]"@);
        vstd::seq_lib::lemma_concat_associative("["@ + ser_commit(c) + r0, "]"@, rest);
        vstd::seq_lib::lemma_concat_associative("["@ + ser_commit(c), r0, "]"@ + rest);
        vstd::seq_lib::lemma_concat_associative("["@, ser_commit(c), r0 + ("]"@ + rest));
        let x1 = ser_commit(c) + (r0 + ("]"@ + rest));
        lemma_drop_concat("["@, x1);
        assert(s[0] == '[' && s.drop_first() == x1);
        let x2 = r0 + ("]"@ + rest);
        lemma_ser_commit_unroll(c, x2);
        lemma_drop_concat("{\"id\":"@, ser_string(c.id) + (",\"message\":"@ + (ser_string(
            c.message,
        ) + (",\"timestamp\":"@ + (ser_string(c.timestamp) + (",\"files\":"@ + (
        ser_snapshots(c.files) + ("}"@ + x2))))))));
        assert(x1[0] == '{' && x1[0] != ']');
        lemma_parse_commit_of_ser(c, x2);
        lemma_parse_commits_rest_of_ser(tail, rest);
        assert(seq![c] + tail =~= cs);
    }
}

/// The round trip one way: parsing a serialized history yields exactly
/// that history, for every history.
pub proof fn lemma_parse_of_ser(cs: Seq<CommitModel>)
    ensures
        parse_log(ser_log(cs)) == Some(cs),
{
    lemma_parse_log_prefix_of_ser(cs, Seq::<char>::empty());
    assert(ser_log(cs) + Seq::<char>::empty() =~= ser_log(cs));
}

// ----- the round trip the other way: only serialized forms parse -----

proof fn lemma_parse_lit_inv(s: Seq<char>, lit: Seq<char>)
    ensures
        parse_lit(s, lit) matches Some(r) ==> s == lit + r,
{
    if parse_lit(s, lit) is Some {
        assert(s =~= s.subrange(0, lit.len() as int) + s.skip(lit.len() as int));
    }
}

#[verifier::rlimit(100)]
#[verifier::spinoff_prover]
proof fn lemma_parse_str_body_inv(s: Seq<char>)
    ensures
        parse_str_body(s) matches Some(p) ==> s == esc_str(p.0) + seq!['"'] + p.1,
    decreases s.len(),
{
    if s.len() == 0 {
    } else if s[0] == '"' {
        let p = (Seq::<char>::empty(), s.drop_first());
        assert(s =~= esc_str(p.0) + seq!['"'] + p.1);
    } else if s[0] == '\\' {
        if s.len() >= 2 && (s[1] == '"' || s[1] == '\\') {
            lemma_parse_str_body_inv(s.skip(2));
            if let Some((t2, r)) = parse_str_body(s.skip(2)) {
                let c = s[1];
                let t = seq![c] + t2;
                assert(t[0] == c && t.drop_first() =~= t2);
                assert(esc_str(t) == esc_char(c) + esc_str(t2));
                assert(esc_char(c) =~= seq![s[0], s[1]]);
                assert(s =~= seq![s[0], s[1]] + s.skip(2));
                assert(s =~= esc_str(t) + seq!['"'] + r);
            }
        } else if s.len() >= 6 && s[1] == 'u' && s[2] == '0' && s[3] == '0' && is_lower_hex(s[4])
            && is_lower_hex(s[5]) && 16 * hex_val(s[4]) + hex_val(s[5]) < 32 {
            lemma_parse_str_body_inv(s.skip(6));
            if let Some((t2, r)) = parse_str_body(s.skip(6)) {
                let v = 16 * hex_val(s[4]) + hex_val(s[5]);
                let c = (v as u8) as char;
                assert((c as u32) == v);
                assert(is_control(c));
                assert(c != '"' && c != '\\');
                assert(v / 16 == hex_val(s[4]) && v % 16 == hex_val(s[5]));
                lemma_hex_val_digit(s[4]);
                lemma_hex_val_digit(s[5]);
                assert(hex_digit_of(((c as u32) / 16) as nat) == s[4]);
                assert(hex_digit_of(((c as u32) % 16) as nat) == s[5]);
                let t = seq![c] + t2;
                assert(t[0] == c && t.drop_first() =~= t2);
                assert(esc_str(t) == esc_char(c) + esc_str(t2));
                assert(esc_char(c) =~= seq![s[0], s[1], s[2], s[3], s[4], s[5]]);
                assert(s =~= seq![s[0], s[1], s[2], s[3], s[4], s[5]] + s.skip(6));
                assert(s =~= esc_str(t) + seq!['"'] + r);
            }
        }
    } else if (s[0] as u32) >= 32 {
        lemma_parse_str_body_inv(s.drop_first());
        if let Some((t2, r)) = parse_str_body(s.drop_first()) {
            let c = s[0];
            let t = seq![c] + t2;
            assert(t[0] == c && t.drop_first() =~= t2);
            assert(esc_str(t) == esc_char(c) + esc_str(t2));
            assert(esc_char(c) =~= seq![c]);
            assert(s =~= seq![c] + s.drop_first());
            assert(s =~= esc_str(t) + seq!['"'] + r);
        }
    }
}

proof fn lemma_parse_string_inv(s: Seq<char>)
    ensures
        parse_string(s) matches Some(p) ==> s == ser_string(p.0) + p.1,
{
    if s.len() >= 1 && s[0] == '"' {
        lemma_parse_str_body_inv(s.drop_first());
        if let Some((t, r)) = parse_str_body(s.drop_first()) {
            assert(s =~= seq!['"'] + s.drop_first());
            assert(s =~= ser_string(t) + r);
        }
    }
}

#[verifier::rlimit(100)]
#[verifier::spinoff_prover]
proof fn lemma_parse_snapshot_inv(s: Seq<char>)
    ensures
        parse_snapshot(s) matches Some(p) ==> s == ser_snapshot(p.0) + p.1,
{
    if let Some(s1) = parse_lit(s, "{\"name\":"@) {
        lemma_parse_lit_inv(s, "{\"name\":"@);
        lemma_parse_string_inv(s1);
        if let Some((name, s2)) = parse_string(s1) {
            lemma_parse_lit_inv(s2, ",\"hash\":"@);
            if let Some(s3) = parse_lit(s2, ",\"hash\":"@) {
                lemma_parse_string_inv(s3);
                if let Some((hash, s4)) = parse_string(s3) {
                    lemma_parse_lit_inv(s4, "}"@);
                    if let Some(s5) = parse_lit(s4, "}"@) {
                        let f = FileSnapshotModel { name, hash };
                        lemma_ser_snapshot_unroll(f, s5);
                        assert(s == ser_snapshot(f) + s5);
                    }
                }
            }
        }
    }
}

#[verifier::rlimit(100)]
#[verifier::spinoff_prover]
proof fn lemma_parse_files_rest_inv(s: Seq<char>)
    ensures
        parse_files_rest(s) matches Some(p) ==> s == ser_snapshots_rest(p.0) + ("]"@ + p.1),
    decreases s.len(),
{
    reveal_strlit("]");
    reveal_strlit(",");
    if s.len() == 0 {
    } else if s[0] == ']' {
        assert(s =~= "]"@ + s.drop_first());
        assert(s =~= ser_snapshots_rest(Seq::<FileSnapshotModel>::empty()) + ("]"@
            + s.drop_first()));
    } else if s[0] == ',' {
        lemma_parse_snapshot_inv(s.drop_first());
        if let Some((f, s1)) = parse_snapshot(s.drop_first()) {
            lemma_parse_snapshot_shrinks(s.drop_first());
            lemma_parse_files_rest_inv(s1);
            if let Some((fs2, s2)) = parse_files_rest(s1) {
                let fs = seq![f] + fs2;
                assert(fs[0] == f && fs.drop_first() =~= fs2);
                assert(ser_snapshots_rest(fs) == ","@ + ser_snapshot(f) + ser_snapshots_rest(
                    fs2,
                ));
                vstd::seq_lib::lemma_concat_associative(
                    ","@ + ser_snapshot(f),
                    ser_snapshots_rest(fs2),
                    "]"@ + s2,
                );
                vstd::seq_lib::lemma_concat_associative(
                    ","@,
                    ser_snapshot(f),
                    ser_snapshots_rest(fs2) + ("]"@ + s2),
                );
                assert(s =~= ","@ + s.drop_first());
                assert(s == ser_snapshots_rest(fs) + ("]"@ + s2));
            }
        }
    }
}

#[verifier::rlimit(100)]
#[verifier::spinoff_prover]
proof fn lemma_parse_files_inv(s: Seq<char>)
    ensures
        parse_files(s) matches Some(p) ==> s == ser_snapshots(p.0) + p.1,
{
    reveal_strlit("[");
    reveal_strlit("[]");
    reveal_strlit("]");
    if s.len() >= 1 && s[0] == '[' {
        let t = s.drop_first();
        if t.len() >= 1 && t[0] == ']' {
            assert(s =~= "[]"@ + t.drop_first());
            assert(s =~= ser_snapshots(Seq::<FileSnapshotModel>::empty()) + t.drop_first());
        } else {
            lemma_parse_snapshot_inv(t);
            if let Some((f, s1)) = parse_snapshot(t) {
                lemma_parse_files_rest_inv(s1);
                if let Some((fs2, s2)) = parse_files_rest(s1) {
                    let fs = seq![f] + fs2;
                    assert(fs[0] == f && fs.drop_first() =~= fs2);
                    assert(ser_snapshots(fs) == "["@ + ser_snapshot(f) + ser_snapshots_rest(fs2)
                        + "]"@);
                    vstd::seq_lib::lemma_concat_associative(
                        "["@ + ser_snapshot(f) + ser_snapshots_rest(fs2),
                        "]"@,
                        s2,
                    );
                    vstd::seq_lib::lemma_concat_associative(
                        "["@ + ser_snapshot(f),
                        ser_snapshots_rest(fs2),
                        "]"@ + s2,
                    );
                    vstd::seq_lib::lemma_concat_associative(
                        "["@,
                        ser_snapshot(f),
                        ser_snapshots_rest(fs2) + ("]"@ + s2),
                    );
                    assert(s =~= "["@ + t);
                    assert(s == ser_snapshots(fs) + s2);
                }
            }
        }
    }
}

#[verifier::rlimit(100)]
#[verifier::spinoff_prover]
proof fn lemma_parse_commit_inv(s: Seq<char>)
    ensures
        parse_commit(s) matches Some(p) ==> s == ser_commit(p.0) + p.1,
{
    if let Some(s1) = parse_lit(s, "{\"id\":"@) {
        lemma_parse_lit_inv(s, "{\"id\":"@);
        lemma_parse_string_inv(s1);
        if let Some((id, s2)) = parse_string(s1) {
            lemma_parse_lit_inv(s2, ",\"message\":"@);
            if let Some(s3) = parse_lit(s2, ",\"message\":"@) {
                lemma_parse_string_inv(s3);
                if let Some((message, s4)) = parse_string(s3) {
                    lemma_parse_lit_inv(s4, ",\"timestamp\":"@);
                    if let Some(s5) = parse_lit(s4, ",\"timestamp\":"@) {
                        lemma_parse_string_inv(s5);
                        if let Some((timestamp, s6)) = parse_string(s5) {
                            lemma_parse_lit_inv(s6, ",\"files\":"@);
                            if let Some(s7) = parse_lit(s6, ",\"files\":"@) {
                                lemma_parse_files_inv(s7);
                                if let Some((files, s8)) = parse_files(s7) {
                                    lemma_parse_lit_inv(s8, "}"@);
                                    if let Some(s9) = parse_lit(s8, "}"@) {
                                        let c = CommitModel { id, message, timestamp, files };
                                        lemma_ser_commit_unroll(c, s9);
                                        assert(s == ser_commit(c) + s9);
                                    }
                                }
                            }
                        }
                    }
                }
            }
        }
    }
}

#[verifier::rlimit(100)]
#[verifier::spinoff_prover]
proof fn lemma_parse_commits_rest_inv(s: Seq<char>)
    ensures
        parse_commits_rest(s) matches Some(p) ==> s == ser_commits_rest(p.0) + ("]"@ + p.1),
    decreases s.len(),
{
    reveal_strlit("]");
    reveal_strlit(",");
    if s.len() == 0 {
    } else if s[0] == ']' {
        assert(s =~= "]"@ + s.drop_first());
        assert(s =~= ser_commits_rest(Seq::<CommitModel>::empty()) + ("]"@ + s.drop_first()));
    } else if s[0] == ',' {
        lemma_parse_commit_inv(s.drop_first());
        if let Some((c, s1)) = parse_commit(s.drop_first()) {
            lemma_parse_commit_shrinks(s.drop_first());
            lemma_parse_commits_rest_inv(s1);
            if let Some((cs2, s2)) = parse_commits_rest(s1) {
                let cs = seq![c] + cs2;
                assert(cs[0] == c && cs.drop_first() =~= cs2);
                assert(ser_commits_rest(cs) == ","@ + ser_commit(c) + ser_commits_rest(cs2));
                vstd::seq_lib::lemma_concat_associative(
                    ","@ + ser_commit(c),
                    ser_commits_rest(cs2),
                    "]"@ + s2,
                );
                vstd::seq_lib::lemma_concat_associative(
                    ","@,
                    ser_commit(c),
                    ser_commits_rest(cs2) + ("]"@ + s2),
                );
                assert(s =~= ","@ + s.drop_first());
                assert(s == ser_commits_rest(cs) + ("]"@ + s2));
            }
        }
    }
}

#[verifier::rlimit(100)]
#[verifier::spinoff_prover]
proof fn lemma_parse_log_prefix_inv(s: Seq<char>)
    ensures
        parse_log_prefix(s) matches Some(p) ==> s == ser_log(p.0) + p.1,
{
    reveal_strlit("[");
    reveal_strlit("[]");
    reveal_strlit("]");
    if s.len() >= 1 && s[0] == '[' {
        let t = s.drop_first();
        if t.len() >= 1 && t[0] == ']' {
            assert(s =~= "[]"@ + t.drop_first());
            assert(s =~= ser_log(Seq::<CommitModel>::empty()) + t.drop_first());
        } else {
            lemma_parse_commit_inv(t);
            if let Some((c, s1)) = parse_commit(t) {
                lemma_parse_commits_rest_inv(s1);
                if let Some((cs2, s2)) = parse_commits_rest(s1) {
                    let cs = seq![c] + cs2;
                    assert(cs[0] == c && cs.drop_first() =~= cs2);
                    assert(ser_log(cs) == "["@ + ser_commit(c) + ser_commits_rest(cs2) + "]"@);
                    vstd::seq_lib::lemma_concat_associative(
                        "["@ + ser_commit(c) + ser_commits_rest(cs2),
                        "]"@,
                        s2,
                    );
                    vstd::seq_lib::lemma_concat_associative(
                        "["@ + ser_commit(c),
                        ser_commits_rest(cs2),
                        "]"@ + s2,
                    );
                    vstd::seq_lib::lemma_concat_associative(
                        "["@,
                        ser_commit(c),
                        ser_commits_rest(cs2) + ("]"@ + s2),
                    );
                    assert(s =~= "["@ + t);
                    assert(s == ser_log(cs) + s2);
                }
            }
        }
    }
}

/// The round trip the other way: any text the parser accepts is exactly
/// the serialization of the history it yields — the canonical form is
/// the only accepted form.
pub proof fn lemma_ser_of_parse(s: Seq<char>)
    ensures
        parse_log(s) matches Some(cs) ==> ser_log(cs) == s,
{
    lemma_parse_log_prefix_inv(s);
    if let Some((cs, rest)) = parse_log_prefix(s) {
        if rest.len() == 0 {
            assert(ser_log(cs) + rest =~= ser_log(cs));
        }
    }
}

// ----- the executable serializer -----

/// Appends the escaped content of `s` to `out`.
fn append_escaped(out: &mut String, s: &str)
    ensures
        final(out)@ == old(out)@ + esc_str(s@),
{
    let n: usize = s.unicode_len();
    let mut i: usize = 0;
    while i < n
        invariant
            0 <= i <= n,
            n == s@.len(),
            out@ == old(out)@ + esc_str(s@.subrange(0, i as int)),
        decreases n - i,
    {
        let c = s.get_char(i);
        if c == '"' {
            push_char(out, '\\');
            push_char(out, '"');
        } else if c == '\\' {
            push_char(out, '\\');
            push_char(out, '\\');
        } else {
            let v: u32 = c as u32;
            if v < 32 {
                push_char(out, '\\');
                push_char(out, 'u');
                push_char(out, '0');
                push_char(out, '0');
                push_char(out, hex_digit((v / 16) as u8));
                push_char(out, hex_digit((v % 16) as u8));
            } else {
                push_char(out, c);
            }
        }
        proof {
            let pre = s@.subrange(0, i as int);
            let cur = s@.subrange(0, i + 1 as int);
            assert(cur =~= pre.push(s@[i as int]));
            lemma_esc_str_push(pre, s@[i as int]);
            assert(out@ =~= old(out)@ + esc_str(cur));
        }
        i = i + 1;
    }
    proof {
        assert(s@.subrange(0, s@.len() as int) =~= s@);
    }
}

/// Appends a quoted, escaped string value to `out`.
fn append_ser_string(out: &mut String, s: &str)
    ensures
        final(out)@ == old(out)@ + ser_string(s@),
{
    push_char(out, '"');
    append_escaped(out, s);
    push_char(out, '"');
    proof {
        assert(out@ =~= old(out)@ + ser_string(s@));
    }
}

/// Appends one file snapshot object to `out`.
fn append_ser_snapshot(out: &mut String, f: &FileSnapshot)
    ensures
        final(out)@ == old(out)@ + ser_snapshot(f@),
{
    out.append("{\"name\":");
    append_ser_string(out, f.name.as_str());
    out.append(",\"hash\":");
    append_ser_string(out, f.hash.as_str());
    out.append("}");
    proof {
        assert(out@ =~= old(out)@ + ser_snapshot(f@));
    }
}

/// Appends the snapshots from index `i` on, each preceded by a comma.
fn append_ser_snapshots_rest(out: &mut String, fs: &Vec<FileSnapshot>, i: usize)
    requires
        i <= fs@.len(),
    ensures
        final(out)@ == old(out)@ + ser_snapshots_rest(snapshot_views(fs@).skip(i as int)),
    decreases fs@.len() - i,
{
    if i == fs.len() {
        proof {
            assert(snapshot_views(fs@).skip(i as int) =~= Seq::<FileSnapshotModel>::empty());
        }
    } else {
        out.append(",");
        append_ser_snapshot(out, &fs[i as usize]);
        append_ser_snapshots_rest(out, fs, i + 1);
        proof {
            let vs = snapshot_views(fs@);
            assert(vs.skip(i as int)[0] == fs@[i as int]@);
            assert(vs.skip(i as int).drop_first() =~= vs.skip(i + 1 as int));
            assert(out@ =~= old(out)@ + ser_snapshots_rest(vs.skip(i as int)));
        }
    }
}

/// Appends a commit's file snapshot array to `out`.
fn append_ser_snapshots(out: &mut String, fs: &Vec<FileSnapshot>)
    ensures
        final(out)@ == old(out)@ + ser_snapshots(snapshot_views(fs@)),
{
    if fs.len() == 0 {
        out.append("[]");
    } else {
        out.append("[");
        append_ser_snapshot(out, &fs[0]);
        append_ser_snapshots_rest(out, fs, 1);
        out.append("]");
        proof {
            let vs = snapshot_views(fs@);
            assert(vs[0] == fs@[0]@);
            assert(vs.drop_first() =~= vs.skip(1));
            assert(out@ =~= old(out)@ + ser_snapshots(vs));
        }
    }
}

/// Appends one commit object to `out`.
fn append_ser_commit(out: &mut String, c: &Commit)
    ensures
        final(out)@ == old(out)@ + ser_commit(c@),
{
    out.append("{\"id\":");
    append_ser_string(out, c.id.as_str());
    out.append(",\"message\":");
    append_ser_string(out, c.message.as_str());
    out.append(",\"timestamp\":");
    append_ser_string(out, c.timestamp.as_str());
    out.append(",\"files\":");
    append_ser_snapshots(out, &c.files);
    out.append("}");
    proof {
        assert(out@ =~= old(out)@ + ser_commit(c@));
    }
}

/// Appends the commits from index `i` on, each preceded by a comma.
fn append_ser_commits_rest(out: &mut String, cs: &Vec<Commit>, i: usize)
    requires
        i <= cs@.len(),
    ensures
        final(out)@ == old(out)@ + ser_commits_rest(commit_views(cs@).skip(i as int)),
    decreases cs@.len() - i,
{
    if i == cs.len() {
        proof {
            assert(commit_views(cs@).skip(i as int) =~= Seq::<CommitModel>::empty());
        }
    } else {
        out.append(",");
        append_ser_commit(out, &cs[i as usize]);
        append_ser_commits_rest(out, cs, i + 1);
        proof {
            let vs = commit_views(cs@);
            assert(vs.skip(i as int)[0] == cs@[i as int]@);
            assert(vs.skip(i as int).drop_first() =~= vs.skip(i + 1 as int));
            assert(out@ =~= old(out)@ + ser_commits_rest(vs.skip(i as int)));
        }
    }
}

/// Serializes the whole history into its canonical textual form.
pub fn serialize_log(log: &CommitLog) -> (r: String)
    ensures
        r@ == ser_log(log@),
{
    let mut out = String::new();
    if log.commits.len() == 0 {
        out.append("[]");
        proof {
            assert(log@ =~= Seq::<CommitModel>::empty());
            assert(out@ =~= ser_log(log@));
        }
    } else {
        out.append("[");
        append_ser_commit(&mut out, &log.commits[0]);
        append_ser_commits_rest(&mut out, &log.commits, 1);
        out.append("]");
        proof {
            let vs = commit_views(log.commits@);
            assert(vs == log@);
            assert(vs[0] == log.commits@[0]@);
            assert(vs.drop_first() =~= vs.skip(1));
            assert(out@ =~= ser_log(log@));
        }
    }
    out
}

// ----- the executable parser -----

/// Prepends one character to a decoded string.
fn prepend_char(c: char, t: String) -> (r: String)
    ensures
        r@ == seq![c] + t@,
{
    let mut out = String::new();
    push_char(&mut out, c);
    out.append(t.as_str());
    proof {
        assert(out@ =~= seq![c] + t@);
    }
    out
}

/// The value of a lowercase hexadecimal digit, or `None` for any other
/// character.
fn hex_val_char(c: char) -> (r: Option<u8>)
    ensures
        is_lower_hex(c) ==> r == Some(hex_val(c) as u8),
        !is_lower_hex(c) ==> r is None,
{
    let v: u32 = c as u32;
    if 48 <= v && v <= 57 {
        Some((v - 48) as u8)
    } else if 97 <= v && v <= 102 {
        Some((v - 87) as u8)
    } else {
        None
    }
}

/// Consumes an exact literal from the head of the input.
fn expect_lit<'a>(s: &'a str, lit: &str) -> (r: Option<&'a str>)
    ensures
        match r {
            Some(rest) => parse_lit(s@, lit@) == Some(rest@),
            None => parse_lit(s@, lit@) is None,
        },
{
    let sn: usize = s.unicode_len();
    let ln: usize = lit.unicode_len();
    if ln > sn {
        return None;
    }
    let mut i: usize = 0;
    while i < ln
        invariant
            0 <= i <= ln,
            ln == lit@.len(),
            sn == s@.len(),
            ln <= sn,
            forall|j: int| 0 <= j < i ==> s@[j] == lit@[j],
        decreases ln - i,
    {
        if s.get_char(i) != lit.get_char(i) {
            proof {
                assert(s@.subrange(0, ln as int)[i as int] != lit@[i as int]);
                assert(s@.subrange(0, ln as int) != lit@);
            }
            return None;
        }
        i = i + 1;
    }
    let rest = s.substring_char(ln, sn);
    proof {
        assert(s@.subrange(0, ln as int) =~= lit@);
        assert(rest@ =~= s@.skip(ln as int));
    }
    Some(rest)
}

/// Parses string content up to and including the closing quote.
fn p_str_body<'a>(s: &'a str) -> (r: Option<(String, &'a str)>)
    ensures
        match r {
            Some(p) => parse_str_body(s@) == Some((p.0@, p.1@)),
            None => parse_str_body(s@) is None,
        },
    decreases s@.len(),
{
    let n: usize = s.unicode_len();
    if n == 0 {
        return None;
    }
    let c = s.get_char(0);
    if c == '"' {
        let rest = s.substring_char(1, n);
        proof {
            assert(rest@ =~= s@.drop_first());
        }
        Some((String::new(), rest))
    } else if c == '\\' {
        if n < 2 {
            return None;
        }
        let e = s.get_char(1);
        if e == '"' || e == '\\' {
            let sub = s.substring_char(2, n);
            proof {
                assert(sub@ =~= s@.skip(2));
            }
            match p_str_body(sub) {
                None => None,
                Some((t, rest)) => Some((prepend_char(e, t), rest)),
            }
        } else if e == 'u' {
            if n < 6 {
                return None;
            }
            if s.get_char(2) != '0' || s.get_char(3) != '0' {
                return None;
            }
            let h4 = hex_val_char(s.get_char(4));
            let h5 = hex_val_char(s.get_char(5));
            match (h4, h5) {
                (Some(a), Some(b)) => {
                    let v: u8 = 16 * a + b;
                    if v < 32 {
                        let sub = s.substring_char(6, n);
                        proof {
                            assert(sub@ =~= s@.skip(6));
                        }
                        match p_str_body(sub) {
                            None => None,
                            Some((t, rest)) => Some((prepend_char(v as char, t), rest)),
                        }
                    } else {
                        None
                    }
                },
                _ => None,
            }
        } else {
            None
        }
    } else {
        let v: u32 = c as u32;
        if v >= 32 {
            let sub = s.substring_char(1, n);
            proof {
                assert(sub@ =~= s@.drop_first());
            }
            match p_str_body(sub) {
                None => None,
                Some((t, rest)) => Some((prepend_char(c, t), rest)),
            }
        } else {
            None
        }
    }
}

/// Parses a quoted string value.
fn p_string<'a>(s: &'a str) -> (r: Option<(String, &'a str)>)
    ensures
        match r {
            Some(p) => parse_string(s@) == Some((p.0@, p.1@)),
            None => parse_string(s@) is None,
        },
{
    let n: usize = s.unicode_len();
    if n >= 1 && s.get_char(0) == '"' {
        let t = s.substring_char(1, n);
        proof {
            assert(t@ =~= s@.drop_first());
        }
        p_str_body(t)
    } else {
        None
    }
}

/// Parses one file snapshot object.
fn p_snapshot<'a>(s: &'a str) -> (r: Option<(FileSnapshot, &'a str)>)
    ensures
        match r {
            Some(p) => parse_snapshot(s@) == Some((p.0@, p.1@)),
            None => parse_snapshot(s@) is None,
        },
{
    match expect_lit(s, "{\"name\":") {
        None => None,
        Some(s1) => match p_string(s1) {
            None => None,
            Some((name, s2)) => match expect_lit(s2, ",\"hash\":") {
                None => None,
                Some(s3) => match p_string(s3) {
                    None => None,
                    Some((hash, s4)) => match expect_lit(s4, "}") {
                        None => None,
                        Some(s5) => Some((FileSnapshot { name, hash }, s5)),
                    },
                },
            },
        },
    }
}

/// Parses the file snapshots after the first.
fn p_files_rest<'a>(s: &'a str) -> (r: Option<(Vec<FileSnapshot>, &'a str)>)
    ensures
        match r {
            Some(p) => parse_files_rest(s@) == Some((snapshot_views(p.0@), p.1@)),
            None => parse_files_rest(s@) is None,
        },
    decreases s@.len(),
{
    let n: usize = s.unicode_len();
    if n == 0 {
        return None;
    }
    let c = s.get_char(0);
    if c == ']' {
        let rest = s.substring_char(1, n);
        proof {
            assert(rest@ =~= s@.drop_first());
            assert(snapshot_views(Seq::<FileSnapshot>::empty()) =~= Seq::<
                FileSnapshotModel,
            >::empty());
        }
        let out: Vec<FileSnapshot> = Vec::new();
        Some((out, rest))
    } else if c == ',' {
        let t = s.substring_char(1, n);
        proof {
            assert(t@ =~= s@.drop_first());
        }
        match p_snapshot(t) {
            None => None,
            Some((f, s1)) => {
                proof {
                    lemma_parse_snapshot_shrinks(t@);
                }
                match p_files_rest(s1) {
                    None => None,
                    Some((mut fs, s2)) => {
                        let ghost tail_views = snapshot_views(fs@);
                        let mut out: Vec<FileSnapshot> = Vec::new();
                        out.push(f);
                        out.append(&mut fs);
                        proof {
                            assert(snapshot_views(out@) =~= seq![f@] + tail_views);
                        }
                        Some((out, s2))
                    },
                }
            },
        }
    } else {
        None
    }
}

/// Parses a commit's file snapshot array.
fn p_files<'a>(s: &'a str) -> (r: Option<(Vec<FileSnapshot>, &'a str)>)
    ensures
        match r {
            Some(p) => parse_files(s@) == Some((snapshot_views(p.0@), p.1@)),
            None => parse_files(s@) is None,
        },
{
    let n: usize = s.unicode_len();
    if n >= 1 && s.get_char(0) == '[' {
        let t = s.substring_char(1, n);
        proof {
            assert(t@ =~= s@.drop_first());
        }
        let tn: usize = t.unicode_len();
        if tn >= 1 && t.get_char(0) == ']' {
            let rest = t.substring_char(1, tn);
            proof {
                assert(rest@ =~= t@.drop_first());
                assert(snapshot_views(Seq::<FileSnapshot>::empty()) =~= Seq::<
                    FileSnapshotModel,
                >::empty());
            }
            let out: Vec<FileSnapshot> = Vec::new();
            Some((out, rest))
        } else {
            match p_snapshot(t) {
                None => None,
                Some((f, s1)) => match p_files_rest(s1) {
                    None => None,
                    Some((mut fs, s2)) => {
                        let ghost tail_views = snapshot_views(fs@);
                        let mut out: Vec<FileSnapshot> = Vec::new();
                        out.push(f);
                        out.append(&mut fs);
                        proof {
                            assert(snapshot_views(out@) =~= seq![f@] + tail_views);
                        }
                        Some((out, s2))
                    },
                },
            }
        }
    } else {
        None
    }
}

/// Parses one commit object.
fn p_commit<'a>(s: &'a str) -> (r: Option<(Commit, &'a str)>)
    ensures
        match r {
            Some(p) => parse_commit(s@) == Some((p.0@, p.1@)),
            None => parse_commit(s@) is None,
        },
{
    match expect_lit(s, "{\"id\":") {
        None => None,
        Some(s1) => match p_string(s1) {
            None => None,
            Some((id, s2)) => match expect_lit(s2, ",\"message\":") {
                None => None,
                Some(s3) => match p_string(s3) {
                    None => None,
                    Some((message, s4)) => match expect_lit(s4, ",\"timestamp\":") {
                        None => None,
                        Some(s5) => match p_string(s5) {
                            None => None,
                            Some((timestamp, s6)) => match expect_lit(s6, ",\"files\":") {
                                None => None,
                                Some(s7) => match p_files(s7) {
                                    None => None,
                                    Some((files, s8)) => match expect_lit(s8, "}") {
                                        None => None,
                                        Some(s9) => Some(
                                            (Commit { id, message, timestamp, files }, s9),
                                        ),
                                    },
                                },
                            },
                        },
                    },
                },
            },
        },
    }
}

/// Parses the commits after the first.
fn p_commits_rest<'a>(s: &'a str) -> (r: Option<(Vec<Commit>, &'a str)>)
    ensures
        match r {
            Some(p) => parse_commits_rest(s@) == Some((commit_views(p.0@), p.1@)),
            None => parse_commits_rest(s@) is None,
        },
    decreases s@.len(),
{
    let n: usize = s.unicode_len();
    if n == 0 {
        return None;
    }
    let c = s.get_char(0);
    if c == ']' {
        let rest = s.substring_char(1, n);
        proof {
            assert(rest@ =~= s@.drop_first());
            assert(commit_views(Seq::<Commit>::empty()) =~= Seq::<CommitModel>::empty());
        }
        let out: Vec<Commit> = Vec::new();
        Some((out, rest))
    } else if c == ',' {
        let t = s.substring_char(1, n);
        proof {
            assert(t@ =~= s@.drop_first());
        }
        match p_commit(t) {
            None => None,
            Some((cm, s1)) => {
                proof {
                    lemma_parse_commit_shrinks(t@);
                }
                match p_commits_rest(s1) {
                    None => None,
                    Some((mut cs, s2)) => {
                        let ghost tail_views = commit_views(cs@);
                        let mut out: Vec<Commit> = Vec::new();
                        out.push(cm);
                        out.append(&mut cs);
                        proof {
                            assert(commit_views(out@) =~= seq![cm@] + tail_views);
                        }
                        Some((out, s2))
                    },
                }
            },
        }
    } else {
        None
    }
}

/// Parses the commit array that opens the store.
fn p_log_prefix<'a>(s: &'a str) -> (r: Option<(Vec<Commit>, &'a str)>)
    ensures
        match r {
            Some(p) => parse_log_prefix(s@) == Some((commit_views(p.0@), p.1@)),
            None => parse_log_prefix(s@) is None,
        },
{
    let n: usize = s.unicode_len();
    if n >= 1 && s.get_char(0) == '[' {
        let t = s.substring_char(1, n);
        proof {
            assert(t@ =~= s@.drop_first());
        }
        let tn: usize = t.unicode_len();
        if tn >= 1 && t.get_char(0) == ']' {
            let rest = t.substring_char(1, tn);
            proof {
                assert(rest@ =~= t@.drop_first());
                assert(commit_views(Seq::<Commit>::empty()) =~= Seq::<CommitModel>::empty());
            }
            let out: Vec<Commit> = Vec::new();
            Some((out, rest))
        } else {
            match p_commit(t) {
                None => None,
                Some((cm, s1)) => match p_commits_rest(s1) {
                    None => None,
                    Some((mut cs, s2)) => {
                        let ghost tail_views = commit_views(cs@);
                        let mut out: Vec<Commit> = Vec::new();
                        out.push(cm);
                        out.append(&mut cs);
                        proof {
                            assert(commit_views(out@) =~= seq![cm@] + tail_views);
                        }
                        Some((out, s2))
                    },
                },
            }
        }
    } else {
        None
    }
}

/// Parses a whole store text into the commit history it holds, or
/// reports the store corrupt where the text is not well-formed.
pub fn parse_store(s: &str) -> (r: Result<CommitLog, crate::RepoError>)
    ensures
        match parse_log(s@) {
            Some(cs) => r matches Ok(log) && log@ == cs,
            None => r == Err::<CommitLog, crate::RepoError>(crate::RepoError::CorruptStore),
        },
{
    match p_log_prefix(s) {
        None => Err(crate::RepoError::CorruptStore),
        Some((cs, rest)) => {
            if rest.unicode_len() == 0 {
                let log = CommitLog { commits: cs };
                proof {
                    assert(log@ =~= commit_views(cs@));
                }
                Ok(log)
            } else {
                Err(crate::RepoError::CorruptStore)
            }
        },
    }
}

} // verus!
