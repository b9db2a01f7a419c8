//! The producing side of the dispatcher: the per-worker output plan, the
//! content of each output file, and fresh file paths for them.
//!
//! The host program spawns one thread per plan slot, writes each produced
//! byte buffer to its own freshly named file, and joins all threads.

use vstd::prelude::*;
use vstd::string::*;
use crate::archive::{build_archive, level_num, valid_archive, CompressionMode};
use crate::json::{all_well_formed, ascii_bytes, blob_of, build_blob, lemma_blob_newline_count};
use crate::record::RandomTestData;
use vstd::utf8::{is_ascii_chars, is_ascii_chars_encode_utf8};

verus! {

/// The two output formats.
#[derive(Clone, Copy, PartialEq, Eq, Structural, Debug)]
pub enum OutputKind {
    /// Newline-delimited serialized records in one plain file.
    Blob,
    /// One named archive entry per record, zlib-compressed.
    Archive,
}

/// The bytes of one valid output file: `count` well-formed records in the
/// given format (the level only matters for archives).
pub open spec fn valid_output(bytes: Seq<u8>, count: nat, kind: OutputKind, level: nat) -> bool {
    match kind {
        OutputKind::Blob => exists|recs: Seq<RandomTestData>|
            recs.len() == count && all_well_formed(recs) && bytes == ascii_bytes(blob_of(recs)),
        OutputKind::Archive => valid_archive(bytes, count, level),
    }
}

/// Produces the content of one output file of `count` fresh records.
pub fn build_output(kind: OutputKind, mode: CompressionMode, count: u64) -> (out: Vec<u8>)
    ensures
        valid_output(out@, count as nat, kind, level_num(mode)),
{
    match kind {
        OutputKind::Blob => {
            let s = build_blob(count);
            let ghost recs = choose|recs: Seq<RandomTestData>|
                recs.len() == count as nat && all_well_formed(recs) && s@ == blob_of(recs);
            let out = s.as_str().as_bytes_vec();
            proof {
                lemma_blob_newline_count(recs);
                is_ascii_chars_encode_utf8(s@);
                assert(out@ =~= ascii_bytes(blob_of(recs)));
            }
            out
        },
        OutputKind::Archive => build_archive(count, mode),
    }
}

/// Produces the contents of all output files of one worker: exactly
/// `files` of them, each holding `count` records.
pub fn worker_outputs(files: usize, count: u64, kind: OutputKind, mode: CompressionMode) -> (outs:
    Vec<Vec<u8>>)
    ensures
        outs@.len() == files,
        forall|i: int|
            0 <= i < outs@.len() ==> valid_output(
                #[trigger] outs@[i]@,
                count as nat,
                kind,
                level_num(mode),
            ),
{
    let mut outs: Vec<Vec<u8>> = Vec::new();
    let mut i: usize = 0;
    while i < files
        invariant
            i <= files,
            outs@.len() == i,
            forall|j: int|
                0 <= j < outs@.len() ==> valid_output(
                    #[trigger] outs@[j]@,
                    count as nat,
                    kind,
                    level_num(mode),
                ),
        decreases files - i,
    {
        let out = build_output(kind, mode, count);
        outs.push(out);
        i = i + 1;
    }
    outs
}

/// Lays out one worker slot per (path, thread) pair: `threads_per_path`
/// consecutive slots for each target path, in path order.
pub fn plan_workers(paths: &Vec<String>, threads_per_path: usize) -> (plan: Vec<String>)
    requires
        paths@.len() * threads_per_path <= usize::MAX,
    ensures
        plan@.len() == paths@.len() * threads_per_path,
        forall|p: int, j: int|
            0 <= p < paths@.len() && 0 <= j < threads_per_path ==> #[trigger] plan@[p
                * threads_per_path + j] == paths@[p],
{
    let mut plan: Vec<String> = Vec::new();
    let mut p: usize = 0;
    while p < paths.len()
        invariant
            p <= paths@.len(),
            paths@.len() * threads_per_path <= usize::MAX,
            plan@.len() == p * threads_per_path,
            forall|q: int, j: int|
                0 <= q < p && 0 <= j < threads_per_path ==> #[trigger] plan@[q * threads_per_path
                    + j] == paths@[q],
        decreases paths@.len() - p,
    {
        proof {
            lemma_plan_bound(p as nat, paths@.len(), threads_per_path as nat);
        }
        let mut j: usize = 0;
        while j < threads_per_path
            invariant
                p < paths@.len(),
                j <= threads_per_path,
                paths@.len() * threads_per_path <= usize::MAX,
                (p + 1) * threads_per_path <= paths@.len() * threads_per_path,
                plan@.len() == p * threads_per_path + j,
                forall|q: int, i: int|
                    0 <= q < p && 0 <= i < threads_per_path ==> #[trigger] plan@[q
                        * threads_per_path + i] == paths@[q],
                forall|i: int|
                    0 <= i < j ==> #[trigger] plan@[p * threads_per_path + i] == paths@[p as int],
            decreases threads_per_path - j,
        {
            let path = paths[p].clone();
            plan.push(path);
            proof {
                assert forall|q: int, i: int|
                    0 <= q < p && 0 <= i < threads_per_path implies #[trigger] plan@[q
                    * threads_per_path + i] == paths@[q] by {
                    lemma_block_index(q, i, p as int, threads_per_path as int);
                }
            }
            j = j + 1;
        }
        p = p + 1;
    }
    plan
}

/// A slot of an earlier path's block lies before the current block: each
/// path owns `t` consecutive slots of the plan.
proof fn lemma_block_index(q: int, i: int, p: int, t: int)
    requires
        0 <= q < p,
        0 <= i < t,
    ensures
        0 <= q * t + i,
        q * t + i < p * t,
{
    assert(0 <= q * t + i && q * t + i < p * t) by (nonlinear_arith)
        requires
            0 <= q < p && 0 <= i < t,
    ;
}

/// Block arithmetic for the plan: one more path extends the plan by `t`
/// slots and stays within the total.
proof fn lemma_plan_bound(p: nat, n: nat, t: nat)
    requires
        p < n,
        n * t <= usize::MAX,
    ensures
        (p + 1) * t == p * t + t,
        p * t + t <= n * t,
        (p + 1) * t <= n * t,
{
    assert((p + 1) * t == p * t + t) by (nonlinear_arith);
    assert((p + 1) * t <= n * t) by (nonlinear_arith)
        requires
            p + 1 <= n,
    ;
}

/// A character of a rendered file-name token: a lowercase hex digit or a
/// hyphen. In particular, never a path separator.
pub open spec fn token_char(c: char) -> bool {
    ('0' <= c && c <= '9') || ('a' <= c && c <= 'f') || c == '-'
}

/// Relies on uuid: a fresh version-4 Uuid rendered in the hyphenated form,
/// which is 36 characters, each a lowercase hex digit or a hyphen.
#[verifier::external_body]
fn fresh_token() -> (s: String)
    ensures
        s@.len() == 36,
        forall|i: int| 0 <= i < s@.len() ==> token_char(s@[i]),
        is_ascii_chars(s@),
{
    uuid::Uuid::new_v4().to_string()
}

/// Joining a file name onto a directory: a separator goes in between only
/// when the directory is nonempty and does not already end with one.
pub open spec fn path_join(dir: Seq<char>, name: Seq<char>) -> Seq<char> {
    if dir.len() == 0 {
        name
    } else if dir.last() == '/' {
        dir + name
    } else {
        dir + "/"@ + name
    }
}

/// A fresh, high-entropy file path for one new file directly under the
/// given directory: the directory, a separator where one is needed, and a
/// 36-character random token holding no separator itself.
pub fn gen_filepath(dir: &str) -> (p: String)
    ensures
        exists|token: Seq<char>|
            {
                &&& token.len() == 36
                &&& (forall|i: int| 0 <= i < token.len() ==> token_char(#[trigger] token[i]))
                &&& p@ == path_join(dir@, token)
            },
        p@.subrange(0, dir@.len() as int) == dir@,
{
    proof {
        reveal_strlit("/");
    }
    let n = dir.unicode_len();
    let mut p = String::from_str(dir);
    if n > 0 {
        if dir.get_char(n - 1) != '/' {
            p.append("/");
        }
    }
    let token = fresh_token();
    p.append(token.as_str());
    proof {
        if dir@.len() == 0 {
            assert(dir@ + token@ =~= token@);
        }
        assert(p@ == path_join(dir@, token@));
        assert(p@.subrange(0, dir@.len() as int) =~= dir@);
    }
    p
}

} // verus!
