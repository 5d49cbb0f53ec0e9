//! Collection checks: sequence length bounds, element uniqueness, and the
//! size bounds of keyed objects.

use vstd::prelude::*;

use crate::failure::Failure;

verus! {

/// Sequence length validation: the number of items must be at least the
/// given bound (inclusive).
pub trait ValidateArrayMinItems where Self: Sized {
    /// The number of items held.
    spec fn item_count(&self) -> nat;

    /// Checks `min_items <= item count`.
    fn validate(&self, min_items: usize) -> (r: Result<(), Failure>)
        ensures
            r is Ok <==> min_items as nat <= self.item_count(),
            r matches Err(f) ==> f == (Failure::MinItems { limit: min_items }),
    ;
}

impl<T> ValidateArrayMinItems for Vec<T> {
    open spec fn item_count(&self) -> nat {
        self@.len()
    }

    fn validate(&self, min_items: usize) -> (r: Result<(), Failure>) {
        if min_items <= self.len() {
            Ok(())
        } else {
            Err(Failure::MinItems { limit: min_items })
        }
    }
}

impl<T, const N: usize> ValidateArrayMinItems for [T; N] {
    open spec fn item_count(&self) -> nat {
        self@.len()
    }

    fn validate(&self, min_items: usize) -> (r: Result<(), Failure>) {
        let n: usize = self.as_slice().len();
        if min_items <= n {
            Ok(())
        } else {
            Err(Failure::MinItems { limit: min_items })
        }
    }
}

/// Sequence length validation: the number of items must be at most the
/// given bound (inclusive).
pub trait ValidateArrayMaxItems where Self: Sized {
    /// The number of items held.
    spec fn item_count(&self) -> nat;

    /// Checks `item count <= max_items`.
    fn validate(&self, max_items: usize) -> (r: Result<(), Failure>)
        ensures
            r is Ok <==> self.item_count() <= max_items as nat,
            r matches Err(f) ==> f == (Failure::MaxItems { limit: max_items }),
    ;
}

impl<T> ValidateArrayMaxItems for Vec<T> {
    open spec fn item_count(&self) -> nat {
        self@.len()
    }

    fn validate(&self, max_items: usize) -> (r: Result<(), Failure>) {
        if self.len() <= max_items {
            Ok(())
        } else {
            Err(Failure::MaxItems { limit: max_items })
        }
    }
}

impl<T, const N: usize> ValidateArrayMaxItems for [T; N] {
    open spec fn item_count(&self) -> nat {
        self@.len()
    }

    fn validate(&self, max_items: usize) -> (r: Result<(), Failure>) {
        let n: usize = self.as_slice().len();
        if n <= max_items {
            Ok(())
        } else {
            Err(Failure::MaxItems { limit: max_items })
        }
    }
}

/// Whether no two elements of `s` are equal.
pub open spec fn unique_elements(s: Seq<i64>) -> bool {
    forall|i: int, j: int| 0 <= i < j < s.len() ==> s[i] != s[j]
}

/// Uniqueness validation over whole sequences of numbers.
///
/// The failure payload carries no positions: it only records that some
/// pair of elements collided, not which one.
pub trait ValidateUniqueItems where Self: Sized {
    /// The elements compared for equality.
    spec fn elements(&self) -> Seq<i64>;

    /// Checks that no two elements compare equal.  An empty sequence is
    /// vacuously unique.
    fn validate(&self) -> (r: Result<(), Failure>)
        ensures
            r is Ok <==> unique_elements(self.elements()),
            r matches Err(f) ==> f == Failure::UniqueItems,
    ;
}

/// Pairwise uniqueness check over a slice.
fn unique_in_slice(s: &[i64]) -> (r: bool)
    ensures
        r == unique_elements(s@),
{
    let n: usize = s.len();
    let mut i: usize = 0;
    while i < n
        invariant
            i <= n,
            n == s@.len(),
            forall|a: int, b: int| 0 <= a < b < n && a < i ==> s@[a] != s@[b],
        decreases n - i,
    {
        let mut j: usize = i + 1;
        while j < n
            invariant
                i < j <= n,
                n == s@.len(),
                forall|b: int| i < b < j ==> s@[i as int] != s@[b],
            decreases n - j,
        {
            if s[i] == s[j] {
                return false;
            }
            j = j + 1;
        }
        i = i + 1;
    }
    true
}

impl ValidateUniqueItems for Vec<i64> {
    open spec fn elements(&self) -> Seq<i64> {
        self@
    }

    fn validate(&self) -> (r: Result<(), Failure>) {
        if unique_in_slice(self.as_slice()) {
            Ok(())
        } else {
            Err(Failure::UniqueItems)
        }
    }
}

impl<const N: usize> ValidateUniqueItems for [i64; N] {
    open spec fn elements(&self) -> Seq<i64> {
        self@
    }

    fn validate(&self) -> (r: Result<(), Failure>) {
        if unique_in_slice(self.as_slice()) {
            Ok(())
        } else {
            Err(Failure::UniqueItems)
        }
    }
}

impl<U: ValidateUniqueItems> ValidateUniqueItems for Option<U> {
    open spec fn elements(&self) -> Seq<i64> {
        match *self {
            Option::Some(ref v) => v.elements(),
            Option::None => Seq::empty(),
        }
    }

    fn validate(&self) -> (r: Result<(), Failure>) {
        match self {
            Option::Some(v) => v.validate(),
            Option::None => Ok(()),
        }
    }
}

/// Keyed-object size validation: the number of properties must be at least
/// `limit` (inclusive).  The caller hands in the object's size.
pub fn check_min_properties(size: usize, limit: usize) -> (r: Result<(), Failure>)
    ensures
        r is Ok <==> limit <= size,
        r matches Err(f) ==> f == (Failure::MinProperties { limit }),
{
    if limit <= size {
        Ok(())
    } else {
        Err(Failure::MinProperties { limit })
    }
}

/// Keyed-object size validation: the number of properties must be at most
/// `limit` (inclusive).  The caller hands in the object's size.
pub fn check_max_properties(size: usize, limit: usize) -> (r: Result<(), Failure>)
    ensures
        r is Ok <==> size <= limit,
        r matches Err(f) ==> f == (Failure::MaxProperties { limit }),
{
    if size <= limit {
        Ok(())
    } else {
        Err(Failure::MaxProperties { limit })
    }
}

} // verus!
