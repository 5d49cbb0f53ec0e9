//! Message formatting: every failure payload renders to a stable default
//! message, and a per-rule override can replace the default with a fixed
//! text.

use vstd::prelude::*;
use vstd::string::StringExecFns;

use crate::failure::{Failure, Limit};

verus! {

/// The decimal digit character for `d`.
pub open spec fn digit_char(d: int) -> char
    recommends
        0 <= d < 10,
{
    if d == 0 {
        '0'
    } else if d == 1 {
        '1'
    } else if d == 2 {
        '2'
    } else if d == 3 {
        '3'
    } else if d == 4 {
        '4'
    } else if d == 5 {
        '5'
    } else if d == 6 {
        '6'
    } else if d == 7 {
        '7'
    } else if d == 8 {
        '8'
    } else {
        '9'
    }
}

/// The decimal digits of `n`, most significant first, without sign and
/// without leading zeros (except for `n == 0` itself).
pub open spec fn dec_digits(n: nat) -> Seq<char>
    decreases n,
{
    if n < 10 {
        seq![digit_char(n as int)]
    } else {
        dec_digits(n / 10).push(digit_char((n % 10) as int))
    }
}

/// The decimal rendering of `v`, with a leading minus sign when negative.
pub open spec fn int_digits(v: int) -> Seq<char> {
    if v >= 0 {
        dec_digits(v as nat)
    } else {
        seq!['-'] + dec_digits((-v) as nat)
    }
}

/// Appends the single decimal digit `d` to `out`.
fn push_digit(out: &mut String, d: u64)
    requires
        d < 10,
    ensures
        final(out)@ == old(out)@ + seq![digit_char(d as int)],
{
    proof {
        reveal_strlit("0");
        reveal_strlit("1");
        reveal_strlit("2");
        reveal_strlit("3");
        reveal_strlit("4");
        reveal_strlit("5");
        reveal_strlit("6");
        reveal_strlit("7");
        reveal_strlit("8");
        reveal_strlit("9");
    }
    if d == 0 {
        out.append("0");
    } else if d == 1 {
        out.append("1");
    } else if d == 2 {
        out.append("2");
    } else if d == 3 {
        out.append("3");
    } else if d == 4 {
        out.append("4");
    } else if d == 5 {
        out.append("5");
    } else if d == 6 {
        out.append("6");
    } else if d == 7 {
        out.append("7");
    } else if d == 8 {
        out.append("8");
    } else {
        out.append("9");
    }
    proof {
        assert(final(out)@ =~= old(out)@ + seq![digit_char(d as int)]);
    }
}

/// Appends the decimal digits of `n` to `out`.
fn push_u64(out: &mut String, n: u64)
    ensures
        final(out)@ == old(out)@ + dec_digits(n as nat),
    decreases n,
{
    if n < 10 {
        push_digit(out, n);
    } else {
        push_u64(out, n / 10);
        push_digit(out, n % 10);
        proof {
            assert(final(out)@ =~= old(out)@ + dec_digits(n as nat));
        }
    }
}

/// Appends the decimal rendering of `v` to `out`, with sign.
fn push_i64(out: &mut String, v: i64)
    ensures
        final(out)@ == old(out)@ + int_digits(v as int),
{
    proof {
        reveal_strlit("-");
    }
    if v >= 0 {
        push_u64(out, v as u64);
    } else {
        out.append("-");
        let magnitude: u64 = (-(v as i128)) as u64;
        push_u64(out, magnitude);
        proof {
            assert(magnitude as nat == (-(v as int)) as nat);
            assert(final(out)@ =~= old(out)@ + int_digits(v as int));
        }
    }
}

/// Appends the decimal digits of `n` to `out`.
fn push_usize(out: &mut String, n: usize)
    ensures
        final(out)@ == old(out)@ + dec_digits(n as nat),
{
    push_u64(out, n as u64);
}

/// The decimal rendering of `n` as an owned string.
pub fn decimal_string(n: usize) -> (s: String)
    ensures
        s@ == dec_digits(n as nat),
{
    let mut s = String::new();
    push_usize(&mut s, n);
    proof {
        assert(s@ =~= dec_digits(n as nat));
    }
    s
}

/// The text standing before `value` in a range message: the lower bound and
/// its comparison operator, or nothing when there is no lower bound.
pub open spec fn range_min_part(minimum: Option<Limit>) -> Seq<char> {
    match minimum {
        Option::None => Seq::empty(),
        Option::Some(Limit::Inclusive(l)) => int_digits(l as int) + " <= "@,
        Option::Some(Limit::Exclusive(l)) => int_digits(l as int) + " < "@,
    }
}

/// The text standing after `value` in a range message: the comparison
/// operator and the upper bound, or nothing when there is no upper bound.
pub open spec fn range_max_part(maximum: Option<Limit>) -> Seq<char> {
    match maximum {
        Option::None => Seq::empty(),
        Option::Some(Limit::Inclusive(l)) => " <= "@ + int_digits(l as int),
        Option::Some(Limit::Exclusive(l)) => " < "@ + int_digits(l as int),
    }
}

/// The allowed values of an enumeration, rendered as a comma-separated list.
pub open spec fn enumerate_list_text(allowed: Seq<i64>) -> Seq<char>
    decreases allowed.len(),
{
    if allowed.len() == 0 {
        Seq::empty()
    } else if allowed.len() == 1 {
        int_digits(allowed[0] as int)
    } else {
        enumerate_list_text(allowed.drop_last()) + ", "@ + int_digits(allowed.last() as int)
    }
}

/// The default message of each failure payload.  The wording is stable: it
/// is part of the crate's observable behaviour and covered by tests.
pub open spec fn spec_default_message(f: Failure) -> Seq<char> {
    match f {
        Failure::Minimum { limit, actual } => "the number must be `>= "@ + int_digits(
            limit as int,
        ) + "`."@,
        Failure::Maximum { limit, actual } => "the number must be `<= "@ + int_digits(
            limit as int,
        ) + "`."@,
        Failure::ExclusiveMinimum { limit, actual } => "the number must be `> "@ + int_digits(
            limit as int,
        ) + "`."@,
        Failure::ExclusiveMaximum { limit, actual } => "the number must be `< "@ + int_digits(
            limit as int,
        ) + "`."@,
        Failure::Range { minimum, maximum, actual } => "`"@ + int_digits(actual as int)
            + "` must be in `"@ + range_min_part(minimum) + "value"@ + range_max_part(maximum)
            + "`, but not."@,
        Failure::MultipleOf { divisor, actual } => "the value must be multiple of `"@ + int_digits(
            divisor as int,
        ) + "`."@,
        Failure::Pattern { source } => "the value must match the pattern of \""@ + source@
            + "\"."@,
        Failure::MinItems { limit } => "the length of the items must be `>= "@ + dec_digits(
            limit as nat,
        ) + "`."@,
        Failure::MaxItems { limit } => "the length of the items must be `<= "@ + dec_digits(
            limit as nat,
        ) + "`."@,
        Failure::MinProperties { limit } => "the size of the properties must be `>= "@
            + dec_digits(limit as nat) + "`."@,
        Failure::MaxProperties { limit } => "the size of the properties must be `<= "@
            + dec_digits(limit as nat) + "`."@,
        Failure::UniqueItems => "items must be unique."@,
        Failure::Enumerate { allowed } => "the value must be in ["@ + enumerate_list_text(allowed@)
            + "]."@,
        Failure::Custom { message } => message@,
    }
}

/// Renders the default message of `f`.
///
/// Formatting is total: every constructible payload has a message, and the
/// caller-supplied text of a `Custom` payload is returned unmodified.
pub fn default_message(f: &Failure) -> (s: String)
    ensures
        s@ == spec_default_message(*f),
{
    let mut s = String::new();
    match f {
        Failure::Minimum { limit, .. } => {
            s.append("the number must be `>= ");
            push_i64(&mut s, *limit);
            s.append("`.");
        },
        Failure::Maximum { limit, .. } => {
            s.append("the number must be `<= ");
            push_i64(&mut s, *limit);
            s.append("`.");
        },
        Failure::ExclusiveMinimum { limit, .. } => {
            s.append("the number must be `> ");
            push_i64(&mut s, *limit);
            s.append("`.");
        },
        Failure::ExclusiveMaximum { limit, .. } => {
            s.append("the number must be `< ");
            push_i64(&mut s, *limit);
            s.append("`.");
        },
        Failure::Range { minimum, maximum, actual } => {
            s.append("`");
            push_i64(&mut s, *actual);
            s.append("` must be in `");
            match minimum {
                Option::None => {},
                Option::Some(Limit::Inclusive(l)) => {
                    push_i64(&mut s, *l);
                    s.append(" <= ");
                },
                Option::Some(Limit::Exclusive(l)) => {
                    push_i64(&mut s, *l);
                    s.append(" < ");
                },
            }
            s.append("value");
            match maximum {
                Option::None => {},
                Option::Some(Limit::Inclusive(l)) => {
                    s.append(" <= ");
                    push_i64(&mut s, *l);
                },
                Option::Some(Limit::Exclusive(l)) => {
                    s.append(" < ");
                    push_i64(&mut s, *l);
                },
            }
            s.append("`, but not.");
        },
        Failure::MultipleOf { divisor, .. } => {
            s.append("the value must be multiple of `");
            push_i64(&mut s, *divisor);
            s.append("`.");
        },
        Failure::Pattern { source } => {
            s.append("the value must match the pattern of \"");
            s.append(source.as_str());
            s.append("\".");
        },
        Failure::MinItems { limit } => {
            s.append("the length of the items must be `>= ");
            push_usize(&mut s, *limit);
            s.append("`.");
        },
        Failure::MaxItems { limit } => {
            s.append("the length of the items must be `<= ");
            push_usize(&mut s, *limit);
            s.append("`.");
        },
        Failure::MinProperties { limit } => {
            s.append("the size of the properties must be `>= ");
            push_usize(&mut s, *limit);
            s.append("`.");
        },
        Failure::MaxProperties { limit } => {
            s.append("the size of the properties must be `<= ");
            push_usize(&mut s, *limit);
            s.append("`.");
        },
        Failure::UniqueItems => {
            s.append("items must be unique.");
        },
        Failure::Enumerate { allowed } => {
            s.append("the value must be in [");
            push_enumerate_list(&mut s, allowed);
            s.append("].");
        },
        Failure::Custom { message } => {
            s.append(message.as_str());
        },
    }
    proof {
        assert(s@ =~= spec_default_message(*f));
    }
    s
}

/// Appends the comma-separated rendering of `allowed` to `out`.
fn push_enumerate_list(out: &mut String, allowed: &Vec<i64>)
    ensures
        final(out)@ == old(out)@ + enumerate_list_text(allowed@),
{
    let mut i: usize = 0;
    while i < allowed.len()
        invariant
            i <= allowed.len(),
            out@ == old(out)@ + enumerate_list_text(allowed@.take(i as int)),
        decreases allowed.len() - i,
    {
        if i > 0 {
            out.append(", ");
        }
        push_i64(out, allowed[i]);
        proof {
            assert(allowed@.take(i + 1 as int).drop_last() =~= allowed@.take(i as int));
            assert(allowed@.take(i + 1 as int).last() == allowed@[i as int]);
            if i > 0 {
                assert(out@ =~= old(out)@ + enumerate_list_text(allowed@.take(i + 1 as int)));
            } else {
                assert(out@ =~= old(out)@ + enumerate_list_text(allowed@.take(i + 1 as int)));
            }
        }
        i = i + 1;
    }
    proof {
        assert(allowed@.take(allowed@.len() as int) =~= allowed@);
    }
}

/// How a rule instance turns its failure payload into the final message:
/// either the compiled-in default for the payload's kind, or a fixed text
/// chosen when the rule was declared.
#[derive(Debug, PartialEq)]
pub enum MessageFormat {
    /// Use the default message of the payload.
    Standard,
    /// Use this text, whatever the payload says.
    Fixed(String),
}

/// The message produced for `f` under the formatting choice `fmt`.
pub open spec fn spec_format_message(f: Failure, fmt: MessageFormat) -> Seq<char> {
    match fmt {
        MessageFormat::Standard => spec_default_message(f),
        MessageFormat::Fixed(text) => text@,
    }
}

/// Renders the message of `f`: the per-rule override when one was supplied,
/// the default otherwise.
pub fn format_message(f: &Failure, fmt: &MessageFormat) -> (s: String)
    ensures
        s@ == spec_format_message(*f, *fmt),
{
    match fmt {
        MessageFormat::Standard => default_message(f),
        MessageFormat::Fixed(text) => text.clone(),
    }
}

} // verus!
