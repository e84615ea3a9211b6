//! Error taxonomy of the library.
//!
//! A query or a load can fail in exactly three ways: a queried source has no
//! cache entry yet, a fetched blob does not have the announced shape, or the
//! metric name is not one of the enumerated metrics.

use vstd::prelude::*;

verus! {

/// Why a binary blob was rejected by the decoder.
#[derive(Clone, Copy, Debug, PartialEq, Eq, Structural)]
pub enum FormatFault {
    /// The byte length is not a multiple of the two-byte storage element width.
    OddLength,
    /// The element count does not equal the announced steps * n * n * m.
    CountMismatch,
}

/// Every failure the library reports.
#[derive(Clone, Copy, Debug, PartialEq, Eq, Structural)]
pub enum SimError {
    /// A queried source identifier has no cache entry; retry once it is loaded.
    NotLoaded,
    /// A fetched blob does not match the announced shape.
    Format(FormatFault),
    /// A metric name outside the enumerated metric set.
    InvalidMetric,
}

} // verus!
