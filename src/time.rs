//! Timestamps: a UTC instant hashes its RFC 3339 text, framed by "datetime".
use crate::digest::{sha3, sha3_256};
use crate::hash::{framed, hash_framed_digest};
use chrono::DateTime;
use vstd::prelude::*;
use vstd::utf8::encode_utf8;

verus! {

/// The RFC 3339 text of the UTC instant `secs` seconds and `nanos`
/// nanoseconds after the Unix epoch, or none when the instant is out of range.
pub uninterp spec fn utc_rfc3339(secs: i64, nanos: u32) -> Option<Seq<char>>;

/// Relies on chrono's `DateTime::from_timestamp`, which gives `None` for an
/// out-of-range second count or an invalid nanosecond count, and on
/// `DateTime::to_rfc3339`, which writes the UTC instant as RFC 3339 text.
#[verifier::external_body]
fn rfc3339_text(secs: i64, nanos: u32) -> (r: Option<String>)
    ensures
        match r {
            Some(t) => utc_rfc3339(secs, nanos) == Some(t@),
            None => utc_rfc3339(secs, nanos) is None,
        },
{
    match DateTime::from_timestamp(secs, nanos) {
        Some(d) => Some(d.to_rfc3339()),
        None => None,
    }
}

/// The digest of a timestamp given by its text: the text's UTF-8 bytes
/// digested, then framed by "datetime".
pub open spec fn datetime_digest(text: Seq<char>) -> Seq<u8> {
    framed("datetime"@, sha3_256(encode_utf8(text)))
}

/// Hashes a timestamp given by its canonical text.
pub fn hash_datetime_text(text: &str) -> (r: [u8; 32])
    ensures
        r@ == datetime_digest(text@),
{
    let inner = sha3(text.as_bytes());
    hash_framed_digest("datetime", &inner)
}

/// A UTC instant: seconds and nanoseconds since the Unix epoch.
pub struct Timestamp {
    pub secs: i64,
    pub nanos: u32,
}

impl Timestamp {
    /// Hashes the instant's RFC 3339 text; `None` when the instant is out of
    /// range.
    pub fn hash(&self) -> (r: Option<[u8; 32]>)
        ensures
            match utc_rfc3339(self.secs, self.nanos) {
                Some(t) => r is Some && r->Some_0@ == datetime_digest(t),
                None => r is None,
            },
    {
        match rfc3339_text(self.secs, self.nanos) {
            Some(t) => Some(hash_datetime_text(t.as_str())),
            None => None,
        }
    }
}

} // verus!
