//! Parsing the compact JSON line form back into a record. Parsing accepts
//! exactly the encodings of well-formed records, which makes it the
//! inverse of serialization.

use vstd::prelude::*;
use vstd::string::*;
use crate::digits::{
    canonical_digits, dec_digits, dec_val, digit_check, digit_value, is_digit,
    lemma_canonical_len_bound, lemma_dec_digits_canonical, lemma_dec_digits_len_exact,
    lemma_dec_digits_of_dec_val, lemma_dec_val_of_dec_digits, lemma_dec_val_upper,
    lemma_pow10_mono, lemma_pow10_values, pow10,
};
use crate::json::{json_of, lemma_lit_lens, lit_data, lit_end, lit_obj_ts, lit_user};
use crate::record::{payload_text, RandomTestData};

verus! {

/// A maximal run of digits of `s` starting at `start` and stopping at
/// `end`.
pub open spec fn digit_run(s: Seq<char>, start: int, end: int) -> bool {
    &&& start <= end <= s.len()
    &&& (forall|k: int| start <= k < end ==> is_digit(s[k]))
    &&& (end < s.len() ==> !is_digit(s[end]))
}

/// Two maximal digit runs from the same start stop at the same place.
proof fn lemma_digit_run_unique(s: Seq<char>, start: int, e1: int, e2: int)
    requires
        digit_run(s, start, e1),
        digit_run(s, start, e2),
    ensures
        e1 == e2,
{
    if e1 < e2 {
        assert(is_digit(s[e1]));
        assert(false);
    }
    if e2 < e1 {
        assert(is_digit(s[e2]));
        assert(false);
    }
}

/// Whether `lit` occurs in `s` at position `pos`.
fn match_at(s: &str, pos: usize, lit: &str) -> (b: bool)
    requires
        pos <= s@.len(),
    ensures
        b == (pos + lit@.len() <= s@.len() && s@.subrange(pos as int, pos + lit@.len()) == lit@),
{
    let n = s.unicode_len();
    let m = lit.unicode_len();
    if n - pos < m {
        return false;
    }
    let mut k: usize = 0;
    while k < m
        invariant
            k <= m,
            m == lit@.len(),
            n == s@.len(),
            pos + m <= n,
            forall|t: int| 0 <= t < k ==> s@[pos + t] == lit@[t],
        decreases m - k,
    {
        if s.get_char(pos + k) != lit.get_char(k) {
            proof {
                assert(s@.subrange(pos as int, pos + lit@.len())[k as int] == s@[pos + k]);
            }
            return false;
        }
        k = k + 1;
    }
    proof {
        assert(s@.subrange(pos as int, pos + lit@.len()) =~= lit@);
    }
    true
}

/// Scans the maximal digit run beginning at `start`.
fn scan_digits(s: &str, start: usize) -> (end: usize)
    requires
        start <= s@.len(),
    ensures
        start <= end,
        digit_run(s@, start as int, end as int),
{
    let n = s.unicode_len();
    let mut e = start;
    loop
        invariant
            n == s@.len(),
            start <= e <= n,
            forall|k: int| start <= k < e ==> is_digit(s@[k]),
        ensures
            start <= e <= n,
            forall|k: int| start <= k < e ==> is_digit(s@[k]),
            e < n ==> !is_digit(s@[e as int]),
        decreases n - e,
    {
        if e >= n {
            break ;
        }
        if !digit_check(s.get_char(e)) {
            break ;
        }
        e = e + 1;
    }
    e
}

/// The numeric value of the digit run `s[start..end]`.
fn digits_value(s: &str, start: usize, end: usize) -> (v: u64)
    requires
        start <= end <= s@.len(),
        end - start <= 19,
        forall|k: int| start <= k < end ==> is_digit(s@[k]),
    ensures
        v == dec_val(s@.subrange(start as int, end as int)),
{
    proof {
        lemma_pow10_values();
        assert(s@.subrange(start as int, start as int) =~= Seq::<char>::empty());
    }
    let mut v: u64 = 0;
    let mut k = start;
    while k < end
        invariant
            start <= k <= end,
            end <= s@.len(),
            end - start <= 19,
            forall|i: int| start <= i < end ==> is_digit(s@[i]),
            v == dec_val(s@.subrange(start as int, k as int)),
            v < pow10((k - start) as nat),
        decreases end - k,
    {
        let c = s.get_char(k);
        let d = digit_value(c);
        proof {
            lemma_pow10_mono((k - start) as nat, 18);
            lemma_pow10_values();
        }
        v = v * 10 + d;
        k = k + 1;
        proof {
            let sub = s@.subrange(start as int, k as int);
            assert(sub.drop_last() =~= s@.subrange(start as int, k - 1));
            assert(sub.last() == s@[k - 1]);
            assert(pow10((k - start) as nat) == 10 * pow10((k - 1 - start) as nat));
        }
    }
    v
}

/// Where each region of a well-formed record's encoding lies, and the
/// boundary characters that stop the digit scans.
pub proof fn lemma_json_shape(s: Seq<char>, r: RandomTestData)
    requires
        r.well_formed(),
        s == json_of(r),
    ensures
        1 <= r.user_id@.len() <= 8,
        dec_digits(r.ts as nat).len() == 11,
        s.len() == 49 + r.user_id@.len(),
        s.subrange(0, 6) == lit_obj_ts(),
        s.subrange(6, 17) == dec_digits(r.ts as nat),
        s.subrange(17, 29) == lit_user(),
        s.subrange(29, 29 + r.user_id@.len() as int) == r.user_id@,
        s.subrange(29 + r.user_id@.len() as int, 39 + r.user_id@.len() as int) == lit_data(),
        s.subrange(39 + r.user_id@.len() as int, 47 + r.user_id@.len() as int) == payload_text(),
        s.subrange(47 + r.user_id@.len() as int, 49 + r.user_id@.len() as int) == lit_end(),
        digit_run(s, 6, 17),
        digit_run(s, 29, 29 + r.user_id@.len() as int),
        s[6] != '0',
        lit_obj_ts().len() == 6,
        lit_user().len() == 12,
        lit_data().len() == 10,
        lit_end().len() == 2,
        payload_text().len() == 8,
{
    reveal_strlit("{\"ts\":");
    reveal_strlit(",\"user_id\":\"");
    reveal_strlit("\",\"data\":\"");
    reveal_strlit("\"}");
    reveal_strlit("testdata");
    lemma_lit_lens();
    lemma_pow10_values();
    lemma_dec_digits_len_exact(r.ts as nat, 11);
    lemma_dec_digits_canonical(r.ts as nat);
    lemma_canonical_len_bound(r.user_id@, 8);
    let lu = r.user_id@.len() as int;
    let t = dec_digits(r.ts as nat);
    assert(s.subrange(0, 6) =~= lit_obj_ts());
    assert(s.subrange(6, 17) =~= t);
    assert(s.subrange(17, 29) =~= lit_user());
    assert(s.subrange(29, 29 + lu) =~= r.user_id@);
    assert(s.subrange(29 + lu, 39 + lu) =~= lit_data());
    assert(s.subrange(39 + lu, 47 + lu) =~= payload_text());
    assert(s.subrange(47 + lu, 49 + lu) =~= lit_end());
    assert forall|k: int| 6 <= k < 17 implies is_digit(s[k]) by {
        assert(s[k] == t[k - 6]);
    }
    assert forall|k: int| 29 <= k < 29 + lu implies is_digit(s[k]) by {
        assert(s[k] == r.user_id@[k - 29]);
    }
    assert(s[17] == lit_user()[0]);
    assert(!is_digit(s[17]));
    assert(s[29 + lu] == lit_data()[0]);
    assert(!is_digit(s[29 + lu]));
    assert(s[6] == t[0]);
}

/// Serialization is injective on well-formed records: equal encodings
/// mean equal fields. Together with the contract of [`parse_record`],
/// parsing the serialized form of a record yields a record with the same
/// timestamp, identifier and payload.
pub proof fn lemma_serialization_injective(r1: RandomTestData, r2: RandomTestData)
    requires
        r1.well_formed(),
        r2.well_formed(),
        json_of(r1) == json_of(r2),
    ensures
        r1.ts == r2.ts,
        r1.user_id@ == r2.user_id@,
        r1.data@ == r2.data@,
{
    let s = json_of(r1);
    lemma_json_shape(s, r1);
    lemma_json_shape(s, r2);
    lemma_digit_run_unique(
        s,
        29,
        29 + r1.user_id@.len() as int,
        29 + r2.user_id@.len() as int,
    );
    lemma_dec_val_of_dec_digits(r1.ts as nat);
    lemma_dec_val_of_dec_digits(r2.ts as nat);
}

/// Parses the compact JSON line form of a record. Returns the record
/// exactly when the input is the encoding of a well-formed record.
pub fn parse_record(s: &str) -> (r: Option<RandomTestData>)
    ensures
        r matches Some(rec) ==> rec.well_formed() && s@ == json_of(rec),
        r is None ==> forall|rec: RandomTestData| rec.well_formed() ==> s@ != json_of(rec),
{
    proof {
        lemma_lit_lens();
    }
    let n = s.unicode_len();
    if !match_at(s, 0, "{\"ts\":") {
        proof {
            assert forall|rec: RandomTestData| rec.well_formed() implies s@ != json_of(rec) by {
                if s@ == json_of(rec) {
                    lemma_json_shape(s@, rec);
                }
            }
        }
        return None;
    }
    let e1 = scan_digits(s, 6);
    let len1 = e1 - 6;
    if len1 == 0 || len1 > 19 || (len1 >= 2 && s.get_char(6) == '0') {
        proof {
            assert forall|rec: RandomTestData| rec.well_formed() implies s@ != json_of(rec) by {
                if s@ == json_of(rec) {
                    lemma_json_shape(s@, rec);
                    lemma_digit_run_unique(s@, 6, e1 as int, 17);
                }
            }
        }
        return None;
    }
    let v1 = digits_value(s, 6, e1);
    if v1 < 15000000000 || v1 >= 19000000000 {
        proof {
            assert forall|rec: RandomTestData| rec.well_formed() implies s@ != json_of(rec) by {
                if s@ == json_of(rec) {
                    lemma_json_shape(s@, rec);
                    lemma_digit_run_unique(s@, 6, e1 as int, 17);
                    lemma_dec_val_of_dec_digits(rec.ts as nat);
                }
            }
        }
        return None;
    }
    if !match_at(s, e1, ",\"user_id\":\"") {
        proof {
            assert forall|rec: RandomTestData| rec.well_formed() implies s@ != json_of(rec) by {
                if s@ == json_of(rec) {
                    lemma_json_shape(s@, rec);
                    lemma_digit_run_unique(s@, 6, e1 as int, 17);
                }
            }
        }
        return None;
    }
    let p2 = e1 + 12;
    let e2 = scan_digits(s, p2);
    let len2 = e2 - p2;
    if len2 == 0 || len2 > 8 || (len2 >= 2 && s.get_char(p2) == '0') {
        proof {
            assert forall|rec: RandomTestData| rec.well_formed() implies s@ != json_of(rec) by {
                if s@ == json_of(rec) {
                    lemma_json_shape(s@, rec);
                    lemma_digit_run_unique(s@, 6, e1 as int, 17);
                    lemma_digit_run_unique(s@, 29, e2 as int, 29 + rec.user_id@.len() as int);
                }
            }
        }
        return None;
    }
    if !match_at(s, e2, "\",\"data\":\"") {
        proof {
            assert forall|rec: RandomTestData| rec.well_formed() implies s@ != json_of(rec) by {
                if s@ == json_of(rec) {
                    lemma_json_shape(s@, rec);
                    lemma_digit_run_unique(s@, 6, e1 as int, 17);
                    lemma_digit_run_unique(s@, 29, e2 as int, 29 + rec.user_id@.len() as int);
                }
            }
        }
        return None;
    }
    if !match_at(s, e2 + 10, "testdata") {
        proof {
            assert forall|rec: RandomTestData| rec.well_formed() implies s@ != json_of(rec) by {
                if s@ == json_of(rec) {
                    lemma_json_shape(s@, rec);
                    lemma_digit_run_unique(s@, 6, e1 as int, 17);
                    lemma_digit_run_unique(s@, 29, e2 as int, 29 + rec.user_id@.len() as int);
                }
            }
        }
        return None;
    }
    if !match_at(s, e2 + 18, "\"}") {
        proof {
            assert forall|rec: RandomTestData| rec.well_formed() implies s@ != json_of(rec) by {
                if s@ == json_of(rec) {
                    lemma_json_shape(s@, rec);
                    lemma_digit_run_unique(s@, 6, e1 as int, 17);
                    lemma_digit_run_unique(s@, 29, e2 as int, 29 + rec.user_id@.len() as int);
                }
            }
        }
        return None;
    }
    if e2 + 20 != n {
        proof {
            assert forall|rec: RandomTestData| rec.well_formed() implies s@ != json_of(rec) by {
                if s@ == json_of(rec) {
                    lemma_json_shape(s@, rec);
                    lemma_digit_run_unique(s@, 6, e1 as int, 17);
                    lemma_digit_run_unique(s@, 29, e2 as int, 29 + rec.user_id@.len() as int);
                }
            }
        }
        return None;
    }
    let v2 = digits_value(s, p2, e2);
    let uid_str = s.substring_char(p2, e2);
    let rec = RandomTestData {
        ts: v1,
        user_id: String::from_str(uid_str),
        data: String::from_str("testdata"),
    };
    proof {
        lemma_lit_lens();
        lemma_pow10_values();
        let sub1 = s@.subrange(6, e1 as int);
        let sub2 = s@.subrange(p2 as int, e2 as int);
        assert(canonical_digits(sub1));
        assert(canonical_digits(sub2));
        lemma_dec_digits_of_dec_val(sub1);
        lemma_dec_val_upper(sub2);
        lemma_pow10_mono(sub2.len(), 8);
        assert(rec.well_formed());
        let rhs = lit_obj_ts() + sub1 + lit_user() + sub2 + lit_data() + payload_text()
            + lit_end();
        assert(s@.subrange(0, 6) == lit_obj_ts());
        assert(s@.subrange(e1 as int, e1 + 12) == lit_user());
        assert(s@.subrange(e2 as int, e2 + 10) == lit_data());
        assert(s@.subrange(e2 + 10, e2 + 18) == payload_text());
        assert(s@.subrange(e2 + 18, e2 + 20) == lit_end());
        assert forall|i: int| 0 <= i < s@.len() implies rhs[i] == s@[i] by {
            if i < 6 {
                assert(rhs[i] == lit_obj_ts()[i]);
                assert(s@.subrange(0, 6)[i] == s@[i]);
            } else if i < e1 {
                assert(rhs[i] == sub1[i - 6]);
            } else if i < p2 {
                assert(rhs[i] == lit_user()[i - e1]);
                assert(s@.subrange(e1 as int, e1 + 12)[i - e1] == s@[i]);
            } else if i < e2 {
                assert(rhs[i] == sub2[i - p2]);
            } else if i < e2 + 10 {
                assert(rhs[i] == lit_data()[i - e2]);
                assert(s@.subrange(e2 as int, e2 + 10)[i - e2] == s@[i]);
            } else if i < e2 + 18 {
                assert(rhs[i] == payload_text()[i - e2 - 10]);
                assert(s@.subrange(e2 + 10, e2 + 18)[i - e2 - 10] == s@[i]);
            } else {
                assert(rhs[i] == lit_end()[i - e2 - 18]);
                assert(s@.subrange(e2 + 18, e2 + 20)[i - e2 - 18] == s@[i]);
            }
        }
        assert(rhs.len() == s@.len());
        assert(s@ =~= rhs);
        assert(json_of(rec) == rhs);
    }
    Some(rec)
}

} // verus!
