//! A version-string normalization, parsing, and range-comparison engine.
//!
//! Raw release identifiers ("1.2.3", "2.0-rc-1", "1.0.0_beta") are normalized,
//! tokenized and encoded into a canonical numeric form, [`version::Version`],
//! which carries a total preorder.  A [`range::VersionRange`] pairs two
//! boundary versions with inclusive flags and answers membership queries.

pub mod chars;
pub mod digits;
pub mod encode;
pub mod laws;
pub mod lazy;
pub mod normalize;
pub mod order;
pub mod range;
pub mod splitting;
pub mod version;
