//! The enumerated metric set.
//!
//! A query selects one of five metrics by name. The cosine variants are
//! bounded already; the three distance metrics get a normalization pass over
//! the completed score grid. Any other name is the invalid-argument failure.

use crate::error::SimError;
use crate::str_eq;
use vstd::prelude::*;

verus! {

/// The similarity/distance function selected per query.
#[derive(Clone, Copy, Debug, PartialEq, Eq, Structural)]
pub enum Metric {
    /// dot(a, b) / (norm(a) * norm(b)), with the precomputed per-cell norms.
    Cosine,
    /// Like cosine after subtracting the averaged per-channel means from both
    /// vectors, deliberately still divided by the uncentered norms.
    CosineCentered,
    /// sqrt of the sum of squared channel differences.
    Euclidean,
    /// Sum of absolute channel differences.
    Manhattan,
    /// Maximum absolute channel difference.
    Chebyshev,
}

/// The metric a name selects, or the invalid-argument failure.
pub open spec fn metric_of_name(s: Seq<char>) -> Result<Metric, SimError> {
    if s == "cosine"@ {
        Ok(Metric::Cosine)
    } else if s == "cosine_centered"@ {
        Ok(Metric::CosineCentered)
    } else if s == "euclidean"@ {
        Ok(Metric::Euclidean)
    } else if s == "manhattan"@ {
        Ok(Metric::Manhattan)
    } else if s == "chebyshev"@ {
        Ok(Metric::Chebyshev)
    } else {
        Err(SimError::InvalidMetric)
    }
}

impl Metric {
    /// Parses a metric name; every name outside the enumerated set is the
    /// invalid-argument failure, never an abort.
    pub fn parse(name: &str) -> (r: Result<Metric, SimError>)
        ensures
            r == metric_of_name(name@),
    {
        if str_eq(name, "cosine") {
            Ok(Metric::Cosine)
        } else if str_eq(name, "cosine_centered") {
            Ok(Metric::CosineCentered)
        } else if str_eq(name, "euclidean") {
            Ok(Metric::Euclidean)
        } else if str_eq(name, "manhattan") {
            Ok(Metric::Manhattan)
        } else if str_eq(name, "chebyshev") {
            Ok(Metric::Chebyshev)
        } else {
            Err(SimError::InvalidMetric)
        }
    }

    /// Whether the metric is an unbounded distance, whose completed score
    /// grid gets the second normalization pass.
    pub open spec fn spec_needs_normalization(self) -> bool {
        self is Euclidean || self is Manhattan || self is Chebyshev
    }

    /// Whether the completed score grid gets the normalization pass; the
    /// cosine variants, already bounded, skip it.
    pub fn needs_normalization(&self) -> (r: bool)
        ensures
            r == self.spec_needs_normalization(),
    {
        match self {
            Metric::Euclidean => true,
            Metric::Manhattan => true,
            Metric::Chebyshev => true,
            _ => false,
        }
    }

    /// Whether the metric reads the precomputed per-channel means.
    pub open spec fn spec_uses_means(self) -> bool {
        self is CosineCentered
    }

    /// Whether the kernel needs the per-channel means for this metric.
    pub fn uses_means(&self) -> (r: bool)
        ensures
            r == self.spec_uses_means(),
    {
        match self {
            Metric::CosineCentered => true,
            _ => false,
        }
    }
}

} // verus!
