//! Packing serialized records into a zlib-compressed tar archive held in
//! memory: one named entry per record, sizes equal to the payload lengths.

use vstd::prelude::*;
use vstd::string::*;
use crate::digits::{
    dec_digits, is_digit, lemma_dec_digits_canonical, lemma_dec_digits_len_exact,
    lemma_dec_val_lower, lemma_pow10_mono, lemma_pow10_values,
};
use crate::json::{all_well_formed, ascii_bytes, json_of, lemma_json_chars, serialize_record};
use crate::record::RandomTestData;
use std::io::Write;
use vstd::utf8::{is_ascii_chars, is_ascii_chars_encode_utf8};

verus! {

/// An error from producing one archive.
#[derive(Clone, Copy, PartialEq, Eq, Structural, Debug)]
pub enum GenError {
    /// The container format refused an entry name.
    EntryName,
    /// The underlying stream failed.
    Io,
}

/// The three compression settings an archive can be produced with.
#[derive(Clone, Copy, PartialEq, Eq, Structural, Debug)]
pub enum CompressionMode {
    /// Stored without compression.
    Plain,
    /// Fastest compression.
    Fast,
    /// Best compression.
    Best,
}

/// The numeric zlib level of a compression setting.
pub open spec fn level_num(m: CompressionMode) -> nat {
    match m {
        CompressionMode::Plain => 0,
        CompressionMode::Fast => 1,
        CompressionMode::Best => 9,
    }
}

/// The numeric zlib level of a compression setting.
pub fn level_value(m: CompressionMode) -> (v: u32)
    ensures
        v == level_num(m),
{
    match m {
        CompressionMode::Plain => 0,
        CompressionMode::Fast => 1,
        CompressionMode::Best => 9,
    }
}

/// Maps the numeric command-line selector to a compression setting:
/// 0 is plain, 1 is fast, anything else is best.
pub fn mode_from_flag(flag: u8) -> (m: CompressionMode)
    ensures
        flag == 0 ==> m == CompressionMode::Plain,
        flag == 1 ==> m == CompressionMode::Fast,
        flag >= 2 ==> m == CompressionMode::Best,
{
    match flag {
        0 => CompressionMode::Plain,
        1 => CompressionMode::Fast,
        _ => CompressionMode::Best,
    }
}

/// An in-memory tar archive under construction. Verus sees nothing of the
/// inner builder; the entry sequence is tracked through [`tar_entries`].
#[verifier::external_body]
pub struct ArchiveBuilder {
    inner: tar::Builder<Vec<u8>>,
}

/// The entries appended so far to a tar builder over an in-memory buffer:
/// entry name and payload bytes, in order.
pub uninterp spec fn tar_entries(b: ArchiveBuilder) -> Seq<(Seq<char>, Seq<u8>)>;

/// The byte stream the tar container format produces for a sequence of
/// entries, with the trailing terminator blocks.
pub uninterp spec fn tar_bytes_of(entries: Seq<(Seq<char>, Seq<u8>)>) -> Seq<u8>;

/// The zlib encoding of a byte stream at a given compression level.
pub uninterp spec fn zlib_of(data: Seq<u8>, level: nat) -> Seq<u8>;

/// A character that a tar entry name may safely contain.
pub open spec fn safe_name_char(c: char) -> bool {
    is_digit(c) || c == '_' || c == '.' || ('a' <= c && c <= 'z')
}

/// An entry name that the GNU tar header accepts: short enough for the
/// name field, made of plain characters, and not a special path component.
pub open spec fn tar_safe_name(s: Seq<char>) -> bool {
    &&& 1 <= s.len() <= 100
    &&& forall|i: int| 0 <= i < s.len() ==> safe_name_char(s[i])
    &&& s != "."@
    &&& s != ".."@
}

/// Relies on tar::Builder::new: a fresh builder over an empty buffer holds
/// no entries.
#[verifier::external_body]
fn tar_builder_new() -> (b: ArchiveBuilder)
    ensures
        tar_entries(b) == Seq::<(Seq<char>, Seq<u8>)>::empty(),
{
    ArchiveBuilder { inner: tar::Builder::new(Vec::new()) }
}

/// Relies on tar::Header (new_gnu, set_path, set_size, set_cksum) and
/// tar::Builder::append: appends one entry whose declared size is the
/// payload byte length. set_path fails only on names over 100 bytes, with
/// nul bytes or special path components; writes to a Vec never fail.
#[verifier::external_body]
fn tar_append_entry(b: &mut ArchiveBuilder, name: &str, data: &[u8]) -> (r: Result<
    (),
    GenError,
>)
    ensures
        r matches Ok(_) ==> tar_entries(*final(b)) == tar_entries(*old(b)).push(
            (name@, data@),
        ),
        r matches Err(_) ==> tar_entries(*final(b)) == tar_entries(*old(b)),
        tar_safe_name(name@) ==> r matches Ok(_),
{
    let mut h = tar::Header::new_gnu();
    if h.set_path(name).is_err() {
        return Err(GenError::EntryName);
    }
    h.set_size(data.len() as u64);
    h.set_cksum();
    match b.inner.append(&h, data) {
        Ok(()) => Ok(()),
        Err(_) => Err(GenError::Io),
    }
}

/// Relies on tar::Builder::into_inner: finishes the archive (the two
/// terminator blocks written) and hands back the buffer; writes to a Vec
/// never fail, so no error can arise here.
#[verifier::external_body]
fn tar_into_bytes(b: ArchiveBuilder) -> (out: Vec<u8>)
    ensures
        out@ == tar_bytes_of(tar_entries(b)),
{
    b.inner.into_inner().expect("writing to a Vec cannot fail")
}

/// Relies on flate2's write::ZlibEncoder over an in-memory buffer: the
/// zlib encoding of the input at the given level (0 to 9); writes to a Vec
/// never fail, so no error can arise here.
#[verifier::external_body]
fn zlib_compress(data: &[u8], level: u32) -> (out: Vec<u8>)
    requires
        level <= 9,
    ensures
        out@ == zlib_of(data@, level as nat),
{
    let mut enc = flate2::write::ZlibEncoder::new(Vec::new(), flate2::Compression::new(level));
    enc.write_all(data).expect("writing to a Vec cannot fail");
    enc.finish().expect("writing to a Vec cannot fail")
}

/// The archive entries derived from a sequence of records: the entry name
/// and the serialized record as payload.
pub open spec fn entries_of(recs: Seq<RandomTestData>) -> Seq<(Seq<char>, Seq<u8>)> {
    recs.map_values(|r: RandomTestData| (r.entry_name(), ascii_bytes(json_of(r))))
}

/// An archive holding exactly `count` well-formed records at the given
/// compression level.
pub open spec fn valid_archive(bytes: Seq<u8>, count: nat, level: nat) -> bool {
    exists|recs: Seq<RandomTestData>|
        recs.len() == count && all_well_formed(recs) && bytes == zlib_of(
            tar_bytes_of(entries_of(recs)),
            level,
        )
}

/// An archive's entry list has exactly one entry per record; the entry is
/// named `<identifier>_<timestamp>.json` and its payload, whose length is
/// the declared entry size, is exactly the serialized record.
pub proof fn lemma_archive_entries(recs: Seq<RandomTestData>)
    ensures
        entries_of(recs).len() == recs.len(),
        forall|i: int|
            0 <= i < recs.len() ==> #[trigger] entries_of(recs)[i] == (
                recs[i].entry_name(),
                ascii_bytes(json_of(recs[i])),
            ),
        forall|i: int|
            0 <= i < recs.len() ==> #[trigger] entries_of(recs)[i].1.len() == json_of(
                recs[i],
            ).len(),
{
}

/// The entry name of a well-formed record is accepted by the GNU header:
/// at most 25 characters of digits, underscore and a lowercase suffix.
pub proof fn lemma_entry_name_safe(r: RandomTestData)
    requires
        r.well_formed(),
    ensures
        tar_safe_name(r.entry_name()),
        is_ascii_chars(r.entry_name()),
        r.entry_name().len() <= 25,
{
    reveal_strlit("_");
    reveal_strlit(".json");
    reveal_strlit(".");
    reveal_strlit("..");
    lemma_pow10_values();
    lemma_dec_digits_canonical(r.ts as nat);
    lemma_dec_digits_len_exact(r.ts as nat, 11);
    let uid = r.user_id@;
    if uid.len() >= 2 {
        lemma_dec_val_lower(uid);
        if uid.len() > 8 {
            lemma_pow10_mono(8, (uid.len() - 1) as nat);
            assert(false);
        }
    }
    let name = r.entry_name();
    let ts_digits = dec_digits(r.ts as nat);
    assert(name.len() == uid.len() + 1 + 11 + 5);
    assert forall|i: int| 0 <= i < name.len() implies safe_name_char(name[i]) by {
        let p1 = uid;
        let p2 = p1 + "_"@;
        let p3 = p2 + ts_digits;
        assert(name == p3 + ".json"@);
        if i < p1.len() {
            assert(name[i] == uid[i]);
        } else if i < p2.len() {
            assert(name[i] == '_');
        } else if i < p3.len() {
            assert(name[i] == ts_digits[i - p2.len()]);
            assert(is_digit(name[i]));
        } else {
            assert(name[i] == ".json"@[i - p3.len()]);
        }
    }
    assert forall|i: int| 0 <= i < name.len() implies '\0' <= #[trigger] name[i] <= '\u{7f}' by {
        assert(safe_name_char(name[i]));
    }
}

/// Builds one complete archive file in memory: `count` freshly generated
/// records, each as one named entry, compressed at the given level.
pub fn build_archive(count: u64, mode: CompressionMode) -> (out: Vec<u8>)
    ensures
        valid_archive(out@, count as nat, level_num(mode)),
{
    let mut b = tar_builder_new();
    let ghost mut recs: Seq<RandomTestData> = Seq::empty();
    proof {
        assert(entries_of(recs) =~= Seq::<(Seq<char>, Seq<u8>)>::empty());
    }
    let mut i: u64 = 0;
    while i < count
        invariant
            i <= count,
            recs.len() == i as nat,
            all_well_formed(recs),
            tar_entries(b) == entries_of(recs),
        decreases count - i,
    {
        let r = RandomTestData::new();
        let line = serialize_record(&r);
        let name = r.get_string_uid();
        let payload = line.as_str().as_bytes_vec();
        proof {
            lemma_json_chars(r);
            is_ascii_chars_encode_utf8(line@);
            assert(payload@ =~= ascii_bytes(json_of(r)));
            lemma_entry_name_safe(r);
        }
        let res = tar_append_entry(&mut b, name.as_str(), payload.as_slice());
        proof {
            assert(res matches Ok(_));
            let pushed = recs.push(r);
            assert(entries_of(pushed) =~= entries_of(recs).push(
                (r.entry_name(), ascii_bytes(json_of(r))),
            ));
            recs = pushed;
        }
        i = i + 1;
    }
    let tar_bytes = tar_into_bytes(b);
    let out = zlib_compress(tar_bytes.as_slice(), level_value(mode));
    proof {
        assert(recs.len() == count as nat && all_well_formed(recs) && out@ == zlib_of(
            tar_bytes_of(entries_of(recs)),
            level_num(mode),
        ));
    }
    out
}

} // verus!
