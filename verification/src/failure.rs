//! Typed failure payloads: one variant per rule kind, carrying the
//! parameters needed to reconstruct a message.

use vstd::prelude::*;

verus! {

/// A one-sided numeric bound, either including or excluding the bound itself.
#[derive(Clone, Copy, Debug, PartialEq, Eq, Structural)]
pub enum Limit {
    Inclusive(i64),
    Exclusive(i64),
}

/// The typed payload of a single failed check.
///
/// Every check either succeeds or returns exactly one of these; the engine
/// has no other error category.  `Custom` carries a caller-supplied message
/// unmodified.
#[allow(inconsistent_fields)]
#[derive(Debug, PartialEq)]
pub enum Failure {
    /// `value >= limit` was violated.
    Minimum { limit: i64, actual: i64 },
    /// `value <= limit` was violated.
    Maximum { limit: i64, actual: i64 },
    /// `value > limit` was violated.
    ExclusiveMinimum { limit: i64, actual: i64 },
    /// `value < limit` was violated.
    ExclusiveMaximum { limit: i64, actual: i64 },
    /// A two-sided range was violated; both bounds are kept so the message
    /// can show the whole admissible interval.
    Range { minimum: Option<Limit>, maximum: Option<Limit>, actual: i64 },
    /// `value` was not an integer multiple of `divisor`.
    MultipleOf { divisor: i64, actual: i64 },
    /// The text did not contain a match of the pattern; only the pattern
    /// source is kept, so the payload stays bounded.
    Pattern { source: String },
    /// The sequence was shorter than `limit` items.
    MinItems { limit: usize },
    /// The sequence was longer than `limit` items.
    MaxItems { limit: usize },
    /// The keyed object had fewer than `limit` properties.
    MinProperties { limit: usize },
    /// The keyed object had more than `limit` properties.
    MaxProperties { limit: usize },
    /// Two elements of the sequence compared equal.
    UniqueItems,
    /// The value was not one of the allowed values.
    Enumerate { allowed: Vec<i64> },
    /// A caller-supplied check failed with this exact message.
    Custom { message: String },
}

/// Whether `value` satisfies a one-sided lower bound.
pub open spec fn min_limit_ok(value: int, minimum: Option<Limit>) -> bool {
    match minimum {
        Option::None => true,
        Option::Some(Limit::Inclusive(l)) => value >= l,
        Option::Some(Limit::Exclusive(l)) => value > l,
    }
}

/// Whether `value` satisfies a one-sided upper bound.
pub open spec fn max_limit_ok(value: int, maximum: Option<Limit>) -> bool {
    match maximum {
        Option::None => true,
        Option::Some(Limit::Inclusive(l)) => value <= l,
        Option::Some(Limit::Exclusive(l)) => value < l,
    }
}

/// Whether `value` lies in the range described by the two optional bounds.
pub open spec fn range_ok(value: int, minimum: Option<Limit>, maximum: Option<Limit>) -> bool {
    min_limit_ok(value, minimum) && max_limit_ok(value, maximum)
}

/// Range check over optional inclusive or exclusive bounds: `value` is valid
/// iff it satisfies both bounds; an absent bound never rejects.
pub fn validate_number_range(
    value: i64,
    minimum: Option<Limit>,
    maximum: Option<Limit>,
) -> (r: bool)
    ensures
        r == range_ok(value as int, minimum, maximum),
{
    if let Some(max) = maximum {
        let over = match max {
            Limit::Inclusive(limit) => value > limit,
            Limit::Exclusive(limit) => value >= limit,
        };
        if over {
            return false;
        }
    }

    if let Some(min) = minimum {
        let under = match min {
            Limit::Inclusive(limit) => value < limit,
            Limit::Exclusive(limit) => value <= limit,
        };
        if under {
            return false;
        }
    }

    true
}

/// Wraps the outcome of a caller-supplied check.  The caller's message is
/// carried into the `Custom` payload unmodified; the engine aggregates it
/// exactly like the payload of a built-in check.
pub fn check_custom(outcome: Result<(), String>) -> (r: Result<(), Failure>)
    ensures
        r is Ok <==> outcome is Ok,
        r matches Err(f) ==> outcome matches Err(m) && f == (Failure::Custom { message: m }),
{
    match outcome {
        Ok(()) => Ok(()),
        Err(message) => Err(Failure::Custom { message }),
    }
}

} // verus!

