//! Canonical, domain-separated SHA3-256 hashing of typed values.
//!
//! Every composite digest is "label-then-content": the digest of a label's
//! digest followed by the content, so that values of different shapes do not
//! share the input that is digested.

pub mod digest;
pub mod hash;
pub mod scalar;
pub mod adt;
pub mod record;
pub mod map;
pub mod value;
pub mod time;
pub mod definition;
