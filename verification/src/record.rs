//! The synthetic record: a timestamp, a decimal identifier and a constant
//! payload, drawn at random, plus the derived archive entry name.

use vstd::prelude::*;
use vstd::string::*;
use crate::digits::{
    canonical_digits, dec_digits, dec_val, lemma_dec_digits_canonical, lemma_dec_val_of_dec_digits,
    u64_to_dec_string,
};
use rand::RngExt;

verus! {

/// Inclusive lower bound of the generated timestamp range.
pub open spec fn ts_min() -> nat {
    15000000000
}

/// Exclusive upper bound of the generated timestamp range.
pub open spec fn ts_max() -> nat {
    19000000000
}

/// Exclusive upper bound of the numeric identifier range.
pub open spec fn id_bound() -> nat {
    100000000
}

/// The constant payload carried by every record.
pub open spec fn payload_text() -> Seq<char> {
    "testdata"@
}

/// One synthetic test record.
pub struct RandomTestData {
    /// Epoch-like timestamp, drawn from [`ts_min`], [`ts_max`]).
    pub ts: u64,
    /// Decimal rendering of an identifier below [`id_bound`].
    pub user_id: String,
    /// Constant payload marking synthetic content.
    pub data: String,
}

impl RandomTestData {
    /// The field invariant every generated record satisfies.
    pub open spec fn well_formed(self) -> bool {
        &&& ts_min() <= self.ts < ts_max()
        &&& canonical_digits(self.user_id@)
        &&& dec_val(self.user_id@) < id_bound()
        &&& self.data@ == payload_text()
    }

    /// The archive entry name derived from a record:
    /// `<identifier>_<timestamp>.json`.
    pub open spec fn entry_name(self) -> Seq<char> {
        self.user_id@ + "_"@ + dec_digits(self.ts as nat) + ".json"@
    }

    /// Draws a fresh record: a uniform timestamp, a uniform identifier
    /// rendered in decimal, and the constant payload.
    pub fn new() -> (r: Self)
        ensures
            r.well_formed(),
    {
        let ts = random_u64_in(15000000000, 19000000000);
        let id = random_u64_in(0, 100000000);
        let user_id = u64_to_dec_string(id);
        proof {
            lemma_dec_digits_canonical(id as nat);
            lemma_dec_val_of_dec_digits(id as nat);
        }
        let data = String::from_str("testdata");
        RandomTestData { ts, user_id, data }
    }

    /// Builds a record from explicit field values, rejecting anything
    /// outside the generated ranges.
    pub fn from_values(ts: u64, id: u64) -> (r: Option<RandomTestData>)
        ensures
            r is Some <==> (ts_min() <= ts < ts_max() && id < id_bound()),
            r matches Some(rec) ==> {
                &&& rec.well_formed()
                &&& rec.ts == ts
                &&& rec.user_id@ == dec_digits(id as nat)
                &&& rec.data@ == payload_text()
            },
    {
        if 15000000000 <= ts && ts < 19000000000 && id < 100000000 {
            let user_id = u64_to_dec_string(id);
            proof {
                lemma_dec_digits_canonical(id as nat);
                lemma_dec_val_of_dec_digits(id as nat);
            }
            let data = String::from_str("testdata");
            Some(RandomTestData { ts, user_id, data })
        } else {
            None
        }
    }

    /// Renders the archive entry name `<identifier>_<timestamp>.json`.
    pub fn get_string_uid(&self) -> (s: String)
        ensures
            s@ == self.entry_name(),
    {
        let mut s = self.user_id.clone();
        s.append("_");
        let t = u64_to_dec_string(self.ts);
        s.append(t.as_str());
        s.append(".json");
        s
    }
}

/// Relies on rand's `RngExt::random_range` over a half-open `u64` range:
/// it panics only on an empty range and otherwise returns a uniform sample
/// inside the range.
#[verifier::external_body]
fn random_u64_in(lo: u64, hi: u64) -> (r: u64)
    requires
        lo < hi,
    ensures
        lo <= r < hi,
{
    rand::rng().random_range(lo..hi)
}

} // verus!
