//! The compact JSON line encoding of a record, the newline-delimited blob
//! built from many records, and the lemmas on their character content.

use vstd::prelude::*;
use vstd::string::*;
use crate::digits::{dec_digits, is_digit, lemma_dec_digits_canonical, u64_to_dec_string};
use crate::record::RandomTestData;
use vstd::utf8::is_ascii_chars;

verus! {

/// The opening of the encoding, up to the timestamp value.
pub open spec fn lit_obj_ts() -> Seq<char> {
    "{\"ts\":"@
}

/// The separator between the timestamp and the identifier value.
pub open spec fn lit_user() -> Seq<char> {
    ",\"user_id\":\""@
}

/// The separator between the identifier and the payload value.
pub open spec fn lit_data() -> Seq<char> {
    "\",\"data\":\""@
}

/// The closing of the encoding.
pub open spec fn lit_end() -> Seq<char> {
    "\"}"@
}

/// The compact JSON encoding of a record, fields in declaration order.
pub open spec fn json_of(r: RandomTestData) -> Seq<char> {
    lit_obj_ts() + dec_digits(r.ts as nat) + lit_user() + r.user_id@ + lit_data() + r.data@
        + lit_end()
}

/// The lengths of the fixed pieces of the encoding.
pub proof fn lemma_lit_lens()
    ensures
        lit_obj_ts().len() == 6,
        lit_user().len() == 12,
        lit_data().len() == 10,
        lit_end().len() == 2,
        crate::record::payload_text().len() == 8,
{
    reveal_strlit("{\"ts\":");
    reveal_strlit(",\"user_id\":\"");
    reveal_strlit("\",\"data\":\"");
    reveal_strlit("\"}");
    reveal_strlit("testdata");
}

/// Serializes a record to its compact JSON line form.
pub fn serialize_record(r: &RandomTestData) -> (s: String)
    ensures
        s@ == json_of(*r),
{
    let mut s = String::from_str("{\"ts\":");
    let t = u64_to_dec_string(r.ts);
    s.append(t.as_str());
    s.append(",\"user_id\":\"");
    s.append(r.user_id.as_str());
    s.append("\",\"data\":\"");
    s.append(r.data.as_str());
    s.append("\"}");
    proof {
        assert(s@ =~= json_of(*r));
    }
    s
}

/// The bytes of an ASCII character sequence, one byte per character.
pub open spec fn ascii_bytes(s: Seq<char>) -> Seq<u8> {
    Seq::new(s.len(), |i: int| s[i] as u8)
}

/// A character that may appear in a serialized record: ASCII and not a
/// newline.
pub open spec fn line_char(c: char) -> bool {
    c != '\n' && '\0' <= c <= '\u{7f}'
}

/// How often `c` occurs in `s`.
pub open spec fn count_char(s: Seq<char>, c: char) -> nat
    decreases s.len(),
{
    if s.len() == 0 {
        0
    } else {
        count_char(s.drop_last(), c) + (if s.last() == c {
            1nat
        } else {
            0nat
        })
    }
}

pub proof fn lemma_count_char_concat(a: Seq<char>, b: Seq<char>, c: char)
    ensures
        count_char(a + b, c) == count_char(a, c) + count_char(b, c),
    decreases b.len(),
{
    if b.len() == 0 {
        assert(a + b =~= a);
    } else {
        lemma_count_char_concat(a, b.drop_last(), c);
        assert((a + b).drop_last() =~= a + b.drop_last());
        assert((a + b).last() == b.last());
    }
}

pub proof fn lemma_count_char_zero(s: Seq<char>, c: char)
    requires
        forall|i: int| 0 <= i < s.len() ==> s[i] != c,
    ensures
        count_char(s, c) == 0,
    decreases s.len(),
{
    if s.len() > 0 {
        lemma_count_char_zero(s.drop_last(), c);
    }
}

/// Every character of a well-formed record's encoding is ASCII and is not
/// a newline.
pub proof fn lemma_json_chars(r: RandomTestData)
    requires
        r.well_formed(),
    ensures
        forall|i: int| 0 <= i < json_of(r).len() ==> #[trigger] line_char(json_of(r)[i]),
        is_ascii_chars(json_of(r)),
        count_char(json_of(r), '\n') == 0,
        json_of(r).len() >= 1,
{
    reveal_strlit("{\"ts\":");
    reveal_strlit(",\"user_id\":\"");
    reveal_strlit("\",\"data\":\"");
    reveal_strlit("\"}");
    reveal_strlit("testdata");
    lemma_dec_digits_canonical(r.ts as nat);
    let s = json_of(r);
    assert forall|i: int| 0 <= i < s.len() implies #[trigger] line_char(s[i]) by {
        let p1 = lit_obj_ts();
        let p2 = p1 + dec_digits(r.ts as nat);
        let p3 = p2 + lit_user();
        let p4 = p3 + r.user_id@;
        let p5 = p4 + lit_data();
        let p6 = p5 + r.data@;
        assert(s == p6 + lit_end());
        if i < p1.len() {
            assert(s[i] == p1[i]);
        } else if i < p2.len() {
            assert(s[i] == dec_digits(r.ts as nat)[i - p1.len()]);
            assert(is_digit(s[i]));
        } else if i < p3.len() {
            assert(s[i] == lit_user()[i - p2.len()]);
        } else if i < p4.len() {
            assert(s[i] == r.user_id@[i - p3.len()]);
            assert(is_digit(s[i]));
        } else if i < p5.len() {
            assert(s[i] == lit_data()[i - p4.len()]);
        } else if i < p6.len() {
            assert(s[i] == r.data@[i - p5.len()]);
        } else {
            assert(s[i] == lit_end()[i - p6.len()]);
        }
    }
    assert forall|i: int| 0 <= i < s.len() implies s[i] != '\n' by {
        assert(line_char(s[i]));
    }
    lemma_count_char_zero(s, '\n');
}

/// The newline-delimited concatenation of the encodings of `recs`, one
/// newline after each record.
pub open spec fn blob_of(recs: Seq<RandomTestData>) -> Seq<char>
    decreases recs.len(),
{
    if recs.len() == 0 {
        Seq::empty()
    } else {
        blob_of(recs.drop_last()) + json_of(recs.last()) + "\n"@
    }
}

/// All records of a sequence satisfy the field invariant.
pub open spec fn all_well_formed(recs: Seq<RandomTestData>) -> bool {
    forall|i: int| 0 <= i < recs.len() ==> #[trigger] recs[i].well_formed()
}

/// A blob holding exactly `count` well-formed records.
pub open spec fn valid_blob(s: Seq<char>, count: nat) -> bool {
    exists|recs: Seq<RandomTestData>|
        recs.len() == count && all_well_formed(recs) && s == blob_of(recs)
}

/// A blob of `count` well-formed records holds exactly `count` newlines:
/// one output line per record.
pub proof fn lemma_blob_newline_count(recs: Seq<RandomTestData>)
    requires
        all_well_formed(recs),
    ensures
        count_char(blob_of(recs), '\n') == recs.len(),
        is_ascii_chars(blob_of(recs)),
    decreases recs.len(),
{
    reveal_strlit("\n");
    if recs.len() == 0 {
        assert(count_char(blob_of(recs), '\n') == 0);
    } else {
        let front = recs.drop_last();
        assert(all_well_formed(front));
        lemma_blob_newline_count(front);
        lemma_json_chars(recs.last());
        lemma_count_char_concat(blob_of(front), json_of(recs.last()), '\n');
        lemma_count_char_concat(blob_of(front) + json_of(recs.last()), "\n"@, '\n');
        assert(count_char("\n"@, '\n') == 1) by {
            assert("\n"@.drop_last() =~= Seq::<char>::empty());
            assert(count_char(Seq::<char>::empty(), '\n') == 0);
            assert("\n"@.last() == '\n');
        }
        assert forall|i: int|
            0 <= i < blob_of(recs).len() implies '\0' <= #[trigger] blob_of(recs)[i]
            <= '\u{7f}' by {
            let a = blob_of(front);
            let b = json_of(recs.last());
            assert(blob_of(recs) == a + b + "\n"@);
            if i < a.len() {
                assert(blob_of(recs)[i] == a[i]);
            } else if i < a.len() + b.len() {
                assert(blob_of(recs)[i] == b[i - a.len()]);
                assert(line_char(b[i - a.len()]));
            } else {
                assert(blob_of(recs)[i] == '\n');
            }
        }
    }
}

/// Builds the content of one newline-delimited output file holding `count`
/// freshly generated records.
pub fn build_blob(count: u64) -> (out: String)
    ensures
        valid_blob(out@, count as nat),
{
    let mut out = String::new();
    let ghost mut recs: Seq<RandomTestData> = Seq::empty();
    let mut i: u64 = 0;
    while i < count
        invariant
            i <= count,
            recs.len() == i as nat,
            all_well_formed(recs),
            out@ == blob_of(recs),
        decreases count - i,
    {
        let r = RandomTestData::new();
        let line = serialize_record(&r);
        out.append(line.as_str());
        out.append("\n");
        proof {
            let pushed = recs.push(r);
            assert(pushed.drop_last() =~= recs);
            assert(pushed.last() == r);
            recs = pushed;
        }
        i = i + 1;
    }
    out
}

} // verus!
