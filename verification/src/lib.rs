//! Similarity queries over cached half-precision embedding grids.
//!
//! A source delivers a tensor of shape (steps x spatial-cells x channels) as a
//! compact blob of little-endian half-precision words. The library decodes and
//! validates blobs, keeps the decoded words with their precomputed statistics
//! in an append-only store, and turns a similarity query into an exact plan of
//! the word and statistic bit patterns the numeric kernel has to fold. The
//! floating-point folds themselves, and the transport that turns a URL into
//! bytes, live with the host around the library.

use vstd::prelude::*;

pub mod codec;
pub mod error;
pub mod metric;
pub mod query;
pub mod store;
pub mod tensor;

verus! {

/// Relies on str's PartialEq: two string slices are equal exactly when their
/// bytes are, hence exactly when their character sequences are.
#[verifier::external_body]
pub(crate) fn str_eq(a: &str, b: &str) -> (r: bool)
    ensures
        r == (a@ == b@),
{
    a == b
}

} // verus!
