//! A declarative validation engine in the style of JSON Schema.
//!
//! The crate offers three layers:
//! - primitive constraint checks over numbers, strings and collections,
//!   each returning either success or a typed [`Failure`] payload;
//! - a lifting mechanism that applies a scalar check across sequences and
//!   optional values of arbitrary nesting depth, collecting one error per
//!   failing position instead of stopping at the first;
//! - an error tree that mirrors the shape of the validated value (object
//!   fields, array indices, flat message lists), together with message
//!   formatting and a rendering of the tree as generic structured data.

use vstd::prelude::*;

pub mod array;
pub mod composited;
pub mod data;
pub mod errors;
pub mod failure;
pub mod message;
pub mod numeric;
pub mod pattern;
pub mod tree;

pub use array::{
    check_max_properties, check_min_properties, ValidateArrayMaxItems, ValidateArrayMinItems,
    ValidateUniqueItems,
};
pub use composited::{validate_composited, Composited, ScalarRule};
pub use data::{data_to_json, DataValue};
pub use errors::{ErrorAccumulator, StructShape};
pub use failure::{check_custom, validate_number_range, Failure, Limit};
pub use message::{default_message, format_message, MessageFormat};
pub use numeric::{
    check_enumerate, check_exclusive_maximum, check_exclusive_minimum, check_maximum,
    check_minimum, check_multiple_of, check_range, NumericRule, ValidateMinimum,
};
pub use pattern::{check_pattern, PatternRule, ValidatePattern};
pub use tree::{merge_trees, ErrorTree, FieldLocator, FieldName};

verus! {

/// The validation entry point of one structured type.
///
/// An implementation — hand-written or generated — runs every declared
/// check of every field, assembles the failures into one [`ErrorTree`]
/// with an [`ErrorAccumulator`], and returns it; success is the absence
/// of any tree, never an empty one.
pub trait Validate {
    /// Validates the whole value, reporting every failure at once.
    fn validate(&self) -> Result<(), ErrorTree>;
}

} // verus!
