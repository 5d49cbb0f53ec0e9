//! Numeric constraint checks: one-sided bounds, two-sided ranges,
//! divisibility and enumeration membership, plus the lifting of the
//! minimum check over vectors, arrays and optional values.

use vstd::prelude::*;
use vstd::arithmetic::div_mod::{lemma_fundamental_div_mod, lemma_mod_multiples_basic};

use crate::composited::ScalarRule;
use crate::failure::{Failure, Limit, range_ok};
use crate::message::{enumerate_list_text, spec_default_message};

verus! {

/// One numeric rule, selected when the validation is declared.  This is
/// the closed set of checks a number can be held to; a value of this type
/// plugs into the lifting machinery as a scalar check.
#[derive(Debug)]
pub enum NumericRule {
    /// Valid iff `value >= bound`.
    Minimum(i64),
    /// Valid iff `value <= bound`.
    Maximum(i64),
    /// Valid iff `value > bound`.
    ExclusiveMinimum(i64),
    /// Valid iff `value < bound`.
    ExclusiveMaximum(i64),
    /// Valid iff the value is an exact multiple of the divisor.
    MultipleOf(i64),
    /// Valid iff the value satisfies both optional bounds.
    Range { minimum: Option<Limit>, maximum: Option<Limit> },
    /// Valid iff the value is one of the allowed values.
    Enumerate(Vec<i64>),
}

impl ScalarRule<i64> for NumericRule {
    open spec fn scalar_ok(&self, v: i64) -> bool {
        match *self {
            NumericRule::Minimum(l) => v >= l,
            NumericRule::Maximum(l) => v <= l,
            NumericRule::ExclusiveMinimum(l) => v > l,
            NumericRule::ExclusiveMaximum(l) => v < l,
            NumericRule::MultipleOf(d) => is_multiple_of(v as int, d as int),
            NumericRule::Range { minimum, maximum } => range_ok(v as int, minimum, maximum),
            NumericRule::Enumerate(a) => a@.contains(v),
        }
    }

    open spec fn failure_text(&self, v: i64) -> Seq<char> {
        match *self {
            NumericRule::Minimum(l) => spec_default_message(
                Failure::Minimum { limit: l, actual: v },
            ),
            NumericRule::Maximum(l) => spec_default_message(
                Failure::Maximum { limit: l, actual: v },
            ),
            NumericRule::ExclusiveMinimum(l) => spec_default_message(
                Failure::ExclusiveMinimum { limit: l, actual: v },
            ),
            NumericRule::ExclusiveMaximum(l) => spec_default_message(
                Failure::ExclusiveMaximum { limit: l, actual: v },
            ),
            NumericRule::MultipleOf(d) => spec_default_message(
                Failure::MultipleOf { divisor: d, actual: v },
            ),
            NumericRule::Range { minimum, maximum } => spec_default_message(
                Failure::Range { minimum, maximum, actual: v },
            ),
            NumericRule::Enumerate(a) => "the value must be in ["@ + enumerate_list_text(a@)
                + "]."@,
        }
    }

    fn check(&self, v: &i64) -> (r: Result<(), Failure>) {
        match self {
            NumericRule::Minimum(l) => check_minimum(*v, *l),
            NumericRule::Maximum(l) => check_maximum(*v, *l),
            NumericRule::ExclusiveMinimum(l) => check_exclusive_minimum(*v, *l),
            NumericRule::ExclusiveMaximum(l) => check_exclusive_maximum(*v, *l),
            NumericRule::MultipleOf(d) => check_multiple_of(*v, *d),
            NumericRule::Range { minimum, maximum } => check_range(*v, *minimum, *maximum),
            NumericRule::Enumerate(a) => check_enumerate(*v, a),
        }
    }
}

/// One-sided inclusive lower bound: `value` is valid iff `value >= minimum`.
pub fn check_minimum(value: i64, minimum: i64) -> (r: Result<(), Failure>)
    ensures
        r is Ok <==> value >= minimum,
        r matches Err(f) ==> f == (Failure::Minimum { limit: minimum, actual: value }),
{
    if value >= minimum {
        Ok(())
    } else {
        Err(Failure::Minimum { limit: minimum, actual: value })
    }
}

/// One-sided inclusive upper bound: `value` is valid iff `value <= maximum`.
pub fn check_maximum(value: i64, maximum: i64) -> (r: Result<(), Failure>)
    ensures
        r is Ok <==> value <= maximum,
        r matches Err(f) ==> f == (Failure::Maximum { limit: maximum, actual: value }),
{
    if value <= maximum {
        Ok(())
    } else {
        Err(Failure::Maximum { limit: maximum, actual: value })
    }
}

/// One-sided exclusive lower bound: `value` is valid iff `value > limit`.
pub fn check_exclusive_minimum(value: i64, limit: i64) -> (r: Result<(), Failure>)
    ensures
        r is Ok <==> value > limit,
        r matches Err(f) ==> f == (Failure::ExclusiveMinimum { limit, actual: value }),
{
    if value > limit {
        Ok(())
    } else {
        Err(Failure::ExclusiveMinimum { limit, actual: value })
    }
}

/// One-sided exclusive upper bound: `value` is valid iff `value < limit`.
pub fn check_exclusive_maximum(value: i64, limit: i64) -> (r: Result<(), Failure>)
    ensures
        r is Ok <==> value < limit,
        r matches Err(f) ==> f == (Failure::ExclusiveMaximum { limit, actual: value }),
{
    if value < limit {
        Ok(())
    } else {
        Err(Failure::ExclusiveMaximum { limit, actual: value })
    }
}

/// Two-sided range with optional inclusive or exclusive bounds; a failure
/// keeps both bounds so the message can show the admissible interval.
pub fn check_range(value: i64, minimum: Option<Limit>, maximum: Option<Limit>) -> (r: Result<
    (),
    Failure,
>)
    ensures
        r is Ok <==> range_ok(value as int, minimum, maximum),
        r matches Err(f) ==> f == (Failure::Range { minimum, maximum, actual: value }),
{
    if crate::failure::validate_number_range(value, minimum, maximum) {
        Ok(())
    } else {
        Err(Failure::Range { minimum, maximum, actual: value })
    }
}

/// Whether `value` is an exact integer multiple of `divisor`.
///
/// This covers a divisor of zero as well: the only multiple of zero is zero
/// itself, so `is_multiple_of(v, 0)` holds exactly when `v == 0`.
pub open spec fn is_multiple_of(value: int, divisor: int) -> bool {
    exists|k: int| value == #[trigger] (k * divisor)
}

/// Divisibility check.  The divisor may be zero or negative: a zero divisor
/// accepts only the value zero (the explicit policy for `multiple_of(0)`),
/// and a negative divisor accepts the same values as its absolute value.
pub fn check_multiple_of(value: i64, divisor: i64) -> (r: Result<(), Failure>)
    ensures
        r is Ok <==> is_multiple_of(value as int, divisor as int),
        r matches Err(f) ==> f == (Failure::MultipleOf { divisor, actual: value }),
{
    let failure = Failure::MultipleOf { divisor, actual: value };
    if divisor == 0 {
        if value == 0 {
            proof {
                assert(0int == 0int * 0int);
            }
            Ok(())
        } else {
            proof {
                assert(forall|k: int| #[trigger] (k * 0int) == 0int);
            }
            Err(failure)
        }
    } else {
        let v128: i128 = value as i128;
        let d128: i128 = divisor as i128;
        let vm: i128 = if v128 < 0 { -v128 } else { v128 };
        let dm: i128 = if d128 < 0 { -d128 } else { d128 };
        let rem: i128 = vm % dm;
        proof {
            lemma_multiple_of_by_magnitudes(value as int, divisor as int, vm as int, dm as int);
        }
        if rem == 0 {
            Ok(())
        } else {
            Err(failure)
        }
    }
}

/// Divisibility of `value` by a nonzero `divisor` can be read off the
/// Euclidean remainder of their magnitudes.
proof fn lemma_multiple_of_by_magnitudes(value: int, divisor: int, vm: int, dm: int)
    requires
        divisor != 0,
        vm == if value < 0 { -value } else { value },
        dm == if divisor < 0 { -divisor } else { divisor },
    ensures
        is_multiple_of(value, divisor) <==> vm % dm == 0,
{
    if vm % dm == 0 {
        lemma_fundamental_div_mod(vm, dm);
        let q = vm / dm;
        assert(vm == q * dm) by (nonlinear_arith)
            requires vm == dm * q + vm % dm && vm % dm == 0;
        let k = if (value < 0) != (divisor < 0) { -q } else { q };
        assert(value == k * divisor) by (nonlinear_arith)
            requires
                vm == q * dm,
                vm == if value < 0 { -value } else { value },
                dm == if divisor < 0 { -divisor } else { divisor },
                k == if (value < 0) != (divisor < 0) { -q } else { q };
    }
    if is_multiple_of(value, divisor) {
        let k = choose|k: int| value == #[trigger] (k * divisor);
        let km = if (value < 0) != (divisor < 0) { -k } else { k };
        assert(vm == km * dm) by (nonlinear_arith)
            requires
                value == k * divisor,
                divisor != 0,
                vm == if value < 0 { -value } else { value },
                dm == if divisor < 0 { -divisor } else { divisor },
                km == if (value < 0) != (divisor < 0) { -k } else { k };
        lemma_mod_multiples_basic(km, dm);
    }
}

/// Enumeration membership: `value` is valid iff it equals one of the
/// allowed values.
pub fn check_enumerate(value: i64, allowed: &Vec<i64>) -> (r: Result<(), Failure>)
    ensures
        r is Ok <==> allowed@.contains(value),
        r matches Err(f) ==> f matches Failure::Enumerate { allowed: a } && a@ == allowed@,
{
    let mut i: usize = 0;
    while i < allowed.len()
        invariant
            i <= allowed.len(),
            forall|j: int| 0 <= j < i ==> allowed@[j] != value,
        decreases allowed.len() - i,
    {
        if allowed[i] == value {
            return Ok(());
        }
        i = i + 1;
    }
    let copy = copy_i64s(allowed);
    Err(Failure::Enumerate { allowed: copy })
}

/// Minimum validation, liftable over containers: a scalar satisfies the
/// bound directly; a vector or array satisfies it when every element does;
/// an absent optional satisfies it vacuously.
///
/// The lifted `validate_minimum` reports the failure payload of the first
/// element (in order) that violates the bound, as `minimum_failure` states.
pub trait ValidateMinimum<T> where Self: Sized {
    /// Whether this value satisfies the (lifted) minimum bound.
    spec fn minimum_ok(&self, limit: T) -> bool;

    /// The payload reported when the bound is violated.
    spec fn minimum_failure(&self, limit: T) -> Failure;

    /// Checks the (lifted) minimum bound.
    fn validate_minimum(&self, minimum: T) -> (r: Result<(), Failure>)
        ensures
            r is Ok <==> self.minimum_ok(minimum),
            r matches Err(f) ==> f == self.minimum_failure(minimum),
    ;
}

/// The failure payload of the first element of `s` that violates the bound.
pub open spec fn seq_first_minimum_failure<T, U: ValidateMinimum<T>>(
    s: Seq<U>,
    limit: T,
) -> Failure
    decreases s.len(),
{
    if s.len() == 0 {
        vstd::pervasive::arbitrary()
    } else if !s[0].minimum_ok(limit) {
        s[0].minimum_failure(limit)
    } else {
        seq_first_minimum_failure(s.drop_first(), limit)
    }
}

/// When everything before position `i` satisfies the bound and `s[i]` does
/// not, the first failure of `s` is the failure of `s[i]`.
proof fn lemma_seq_first_minimum_failure<T, U: ValidateMinimum<T>>(s: Seq<U>, limit: T, i: int)
    requires
        0 <= i < s.len(),
        forall|j: int| 0 <= j < i ==> #[trigger] s[j].minimum_ok(limit),
        !s[i].minimum_ok(limit),
    ensures
        seq_first_minimum_failure(s, limit) == s[i].minimum_failure(limit),
    decreases i,
{
    if i > 0 {
        assert(s.drop_first()[i - 1] == s[i]);
        assert(forall|j: int| 0 <= j < i - 1 ==> s.drop_first()[j] == s[j + 1]);
        lemma_seq_first_minimum_failure(s.drop_first(), limit, i - 1);
    }
}

impl ValidateMinimum<i64> for i64 {
    open spec fn minimum_ok(&self, limit: i64) -> bool {
        *self >= limit
    }

    open spec fn minimum_failure(&self, limit: i64) -> Failure {
        Failure::Minimum { limit, actual: *self }
    }

    fn validate_minimum(&self, minimum: i64) -> (r: Result<(), Failure>) {
        check_minimum(*self, minimum)
    }
}

impl ValidateMinimum<i8> for i8 {
    open spec fn minimum_ok(&self, limit: i8) -> bool {
        *self >= limit
    }

    open spec fn minimum_failure(&self, limit: i8) -> Failure {
        Failure::Minimum { limit: limit as i64, actual: *self as i64 }
    }

    fn validate_minimum(&self, minimum: i8) -> (r: Result<(), Failure>) {
        check_minimum(*self as i64, minimum as i64)
    }
}

impl ValidateMinimum<i16> for i16 {
    open spec fn minimum_ok(&self, limit: i16) -> bool {
        *self >= limit
    }

    open spec fn minimum_failure(&self, limit: i16) -> Failure {
        Failure::Minimum { limit: limit as i64, actual: *self as i64 }
    }

    fn validate_minimum(&self, minimum: i16) -> (r: Result<(), Failure>) {
        check_minimum(*self as i64, minimum as i64)
    }
}

impl ValidateMinimum<i32> for i32 {
    open spec fn minimum_ok(&self, limit: i32) -> bool {
        *self >= limit
    }

    open spec fn minimum_failure(&self, limit: i32) -> Failure {
        Failure::Minimum { limit: limit as i64, actual: *self as i64 }
    }

    fn validate_minimum(&self, minimum: i32) -> (r: Result<(), Failure>) {
        check_minimum(*self as i64, minimum as i64)
    }
}

impl ValidateMinimum<u8> for u8 {
    open spec fn minimum_ok(&self, limit: u8) -> bool {
        *self >= limit
    }

    open spec fn minimum_failure(&self, limit: u8) -> Failure {
        Failure::Minimum { limit: limit as i64, actual: *self as i64 }
    }

    fn validate_minimum(&self, minimum: u8) -> (r: Result<(), Failure>) {
        check_minimum(*self as i64, minimum as i64)
    }
}

impl ValidateMinimum<u16> for u16 {
    open spec fn minimum_ok(&self, limit: u16) -> bool {
        *self >= limit
    }

    open spec fn minimum_failure(&self, limit: u16) -> Failure {
        Failure::Minimum { limit: limit as i64, actual: *self as i64 }
    }

    fn validate_minimum(&self, minimum: u16) -> (r: Result<(), Failure>) {
        check_minimum(*self as i64, minimum as i64)
    }
}

impl ValidateMinimum<u32> for u32 {
    open spec fn minimum_ok(&self, limit: u32) -> bool {
        *self >= limit
    }

    open spec fn minimum_failure(&self, limit: u32) -> Failure {
        Failure::Minimum { limit: limit as i64, actual: *self as i64 }
    }

    fn validate_minimum(&self, minimum: u32) -> (r: Result<(), Failure>) {
        check_minimum(*self as i64, minimum as i64)
    }
}

impl<T: Copy, U: ValidateMinimum<T>> ValidateMinimum<T> for Vec<U> {
    open spec fn minimum_ok(&self, limit: T) -> bool {
        forall|i: int| 0 <= i < self@.len() ==> #[trigger] self@[i].minimum_ok(limit)
    }

    open spec fn minimum_failure(&self, limit: T) -> Failure {
        seq_first_minimum_failure(self@, limit)
    }

    fn validate_minimum(&self, minimum: T) -> (r: Result<(), Failure>) {
        let mut i: usize = 0;
        while i < self.len()
            invariant
                i <= self@.len(),
                forall|j: int| 0 <= j < i ==> #[trigger] self@[j].minimum_ok(minimum),
            decreases self@.len() - i,
        {
            match (&self[i]).validate_minimum(minimum) {
                Ok(()) => {},
                Err(f) => {
                    proof {
                        lemma_seq_first_minimum_failure(self@, minimum, i as int);
                    }
                    return Err(f);
                },
            }
            i = i + 1;
        }
        Ok(())
    }
}

impl<T: Copy, U: ValidateMinimum<T>, const N: usize> ValidateMinimum<T> for [U; N] {
    open spec fn minimum_ok(&self, limit: T) -> bool {
        forall|i: int| 0 <= i < self@.len() ==> #[trigger] self@[i].minimum_ok(limit)
    }

    open spec fn minimum_failure(&self, limit: T) -> Failure {
        seq_first_minimum_failure(self@, limit)
    }

    fn validate_minimum(&self, minimum: T) -> (r: Result<(), Failure>) {
        let mut i: usize = 0;
        while i < N
            invariant
                i <= self@.len(),
                forall|j: int| 0 <= j < i ==> #[trigger] self@[j].minimum_ok(minimum),
            decreases self@.len() - i,
        {
            match (&self[i]).validate_minimum(minimum) {
                Ok(()) => {},
                Err(f) => {
                    proof {
                        lemma_seq_first_minimum_failure(self@, minimum, i as int);
                    }
                    return Err(f);
                },
            }
            i = i + 1;
        }
        Ok(())
    }
}

impl<T: Copy, U: ValidateMinimum<T>> ValidateMinimum<T> for Option<U> {
    open spec fn minimum_ok(&self, limit: T) -> bool {
        match *self {
            Option::Some(ref v) => v.minimum_ok(limit),
            Option::None => true,
        }
    }

    open spec fn minimum_failure(&self, limit: T) -> Failure {
        match *self {
            Option::Some(ref v) => v.minimum_failure(limit),
            Option::None => vstd::pervasive::arbitrary(),
        }
    }

    fn validate_minimum(&self, minimum: T) -> (r: Result<(), Failure>) {
        match self {
            Option::Some(v) => v.validate_minimum(minimum),
            Option::None => Ok(()),
        }
    }
}

/// Copies a vector of numbers.
fn copy_i64s(values: &Vec<i64>) -> (r: Vec<i64>)
    ensures
        r@ == values@,
{
    let mut r: Vec<i64> = Vec::new();
    let mut i: usize = 0;
    while i < values.len()
        invariant
            i <= values.len(),
            r@ == values@.take(i as int),
        decreases values.len() - i,
    {
        r.push(values[i]);
        proof {
            assert(r@ =~= values@.take(i + 1 as int));
        }
        i = i + 1;
    }
    proof {
        assert(r@ =~= values@);
    }
    r
}

} // verus!
