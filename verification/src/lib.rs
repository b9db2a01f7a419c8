//! Generator for synthetic structured test records.
//!
//! Records carry an epoch-like timestamp, a numeric identifier rendered in
//! decimal, and a constant payload. They are serialized to a compact JSON
//! line form and packed either into newline-delimited blobs or into
//! zlib-compressed tar archives, ready to be written out by a host program.

pub mod digits;
pub mod record;
pub mod json;
pub mod parse;
pub mod archive;
pub mod runner;
