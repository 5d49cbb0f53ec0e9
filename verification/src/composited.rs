//! Lifting of scalar checks over compound shapes.
//!
//! A checker defined for a scalar type extends mechanically to sequences
//! and optional values of any nesting depth: an absent optional succeeds
//! vacuously, a present one is checked without an extra path segment, and
//! a sequence is checked element by element, recording a child tree under
//! the index of every failing position instead of stopping at the first.

use vstd::prelude::*;

use crate::failure::Failure;
use crate::message::{spec_default_message, format_message, MessageFormat};
use crate::tree::{spec_array_entries, spec_tree, ErrorTree, SpecTree};

verus! {

/// A check over a scalar type, usable as the base of lifting.
///
/// `failure_text` is the default message of the payload that `check`
/// returns on failure; the lifted checker promises exactly this text in
/// the leaves it produces (or the fixed override, when one is set).
pub trait ScalarRule<T> where Self: Sized {
    /// Whether the scalar satisfies this rule.
    spec fn scalar_ok(&self, v: T) -> bool;

    /// The default message of the failure payload for `v`.
    spec fn failure_text(&self, v: T) -> Seq<char>;

    /// Checks one scalar.
    fn check(&self, v: &T) -> (r: Result<(), Failure>)
        ensures
            r is Ok <==> self.scalar_ok(*v),
            r matches Err(f) ==> spec_default_message(f) == self.failure_text(*v),
    ;
}

/// A value of a compound shape built from scalars of type `T` via
/// sequences and optionals, in any nesting.
#[derive(Debug)]
pub enum Composited<T> {
    /// A bare scalar.
    Single(T),
    /// An optional slot: absent means nothing to check.
    Optional(Option<Box<Composited<T>>>),
    /// An ordered sequence of nested values (a vector or a fixed array).
    Sequence(Vec<Composited<T>>),
}

/// The message a failing scalar contributes under the formatting choice
/// `fmt`: the rule's default text, or the fixed override.
pub open spec fn lifted_message<T, R: ScalarRule<T>>(rule: R, fmt: MessageFormat, v: T) -> Seq<
    char,
> {
    match fmt {
        MessageFormat::Standard => rule.failure_text(v),
        MessageFormat::Fixed(text) => text@,
    }
}

/// Whether every scalar reachable in `v` satisfies the rule.  An absent
/// optional holds vacuously; a sequence holds when all elements hold.
pub open spec fn composited_ok<T, R: ScalarRule<T>>(rule: R, v: Composited<T>) -> bool
    decreases v,
{
    match v {
        Composited::Single(x) => rule.scalar_ok(x),
        Composited::Optional(o) => match o {
            Option::None => true,
            Option::Some(b) => composited_ok(rule, *b),
        },
        Composited::Sequence(items) => forall|i: int|
            0 <= i < items@.len() ==> composited_ok(rule, #[trigger] items@[i]),
    }
}

/// The error tree of the lifted check: `None` on success; a `Leaves` node
/// with one message for a failing scalar; the child's own tree for a
/// present optional (no extra path segment); an `Array` node holding, in
/// ascending order, one entry per failing position of a sequence.
pub open spec fn composited_errors<T, R: ScalarRule<T>>(
    rule: R,
    fmt: MessageFormat,
    v: Composited<T>,
) -> Option<SpecTree>
    decreases v,
{
    match v {
        Composited::Single(x) => if rule.scalar_ok(x) {
            Option::None
        } else {
            Option::Some(SpecTree::Leaves(seq![lifted_message(rule, fmt, x)]))
        },
        Composited::Optional(o) => match o {
            Option::None => Option::None,
            Option::Some(b) => composited_errors(rule, fmt, *b),
        },
        Composited::Sequence(items) => {
            let children = composited_children(rule, fmt, items@);
            if children.len() == 0 {
                Option::None
            } else {
                Option::Some(SpecTree::Array(children))
            }
        },
    }
}

/// The `(index, child tree)` entries of the failing positions of a
/// sequence, in ascending index order.
pub open spec fn composited_children<T, R: ScalarRule<T>>(
    rule: R,
    fmt: MessageFormat,
    items: Seq<Composited<T>>,
) -> Seq<(int, SpecTree)>
    decreases items,
{
    if items.len() == 0 {
        Seq::empty()
    } else {
        let prefix = composited_children(rule, fmt, items.subrange(0, items.len() - 1));
        match composited_errors(rule, fmt, items[items.len() - 1]) {
            Option::None => prefix,
            Option::Some(t) => prefix.push(((items.len() - 1) as int, t)),
        }
    }
}

/// The mathematical value of an optional tree.
pub open spec fn opt_tree_view(r: Option<ErrorTree>) -> Option<SpecTree> {
    match r {
        Option::None => Option::None,
        Option::Some(t) => Option::Some(spec_tree(t)),
    }
}

/// Applies the lifted form of `rule` to `value`, as [`composited_errors`]
/// states: `None` exactly when every reachable scalar passes, one leaf
/// message per failing scalar, and index-keyed child trees for sequences,
/// every element checked regardless of earlier failures.
pub fn validate_composited<T, R: ScalarRule<T>>(
    rule: &R,
    fmt: &MessageFormat,
    value: &Composited<T>,
) -> (r: Option<ErrorTree>)
    ensures
        opt_tree_view(r) == composited_errors(*rule, *fmt, *value),
        r is None <==> composited_ok(*rule, *value),
        r matches Some(t) ==> crate::tree::tree_wf(spec_tree(t)),
    decreases *value,
{
    proof {
        lemma_composited_errors_none(*rule, *fmt, *value);
        lemma_composited_tree_wf(*rule, *fmt, *value);
    }
    match value {
        Composited::Single(x) => match rule.check(x) {
            Ok(()) => None,
            Err(f) => {
                let message = format_message(&f, fmt);
                let messages = vec![message];
                let ghost messages_view = messages@;
                let leaves = ErrorTree::Leaves(messages);
                proof {
                    crate::tree::lemma_spec_messages(messages_view);
                    assert(spec_tree(leaves)->Leaves_0 =~= seq![
                        lifted_message(*rule, *fmt, *x),
                    ]);
                }
                Some(leaves)
            },
        },
        Composited::Optional(o) => match o {
            Option::None => None,
            Option::Some(b) => {
                proof {
                    assert(decreases_to!(*value => (*value)->Optional_0));
                    assert(decreases_to!((*value)->Optional_0 => (*value)->Optional_0->0));
                }
                validate_composited(rule, fmt, &**b)
            },
        },
        Composited::Sequence(items) => {
            let mut children: Vec<(usize, ErrorTree)> = Vec::new();
            let mut i: usize = 0;
            while i < items.len()
                invariant
                    *value == Composited::Sequence(*items),
                    i <= items@.len(),
                    spec_array_entries(children@) == composited_children(
                        *rule,
                        *fmt,
                        items@.subrange(0, i as int),
                    ),
                decreases items@.len() - i,
            {
                proof {
                    assert(decreases_to!(*value => (*value)->Sequence_0));
                    assert(decreases_to!(*items => items@));
                    assert(decreases_to!(items@ => items@[i as int]));
                    assert(decreases_to!(*value => items@[i as int]));
                }
                let ghost children0 = children@;
                let child = validate_composited(rule, fmt, &items[i]);
                match child {
                    None => {},
                    Some(t) => {
                        children.push((i, t));
                        proof {
                            assert(children@.subrange(0, children0.len() as int) =~= children0);
                        }
                    },
                }
                proof {
                    assert(items@.subrange(0, i + 1 as int).subrange(0, i as int) =~= items@
                        .subrange(0, i as int));
                    assert(items@.subrange(0, i + 1 as int)[i as int] == items@[i as int]);
                    assert(spec_array_entries(children@) =~= composited_children(
                        *rule,
                        *fmt,
                        items@.subrange(0, i + 1 as int),
                    ));
                }
                i = i + 1;
            }
            proof {
                assert(items@.subrange(0, items@.len() as int) =~= items@);
            }
            if children.len() == 0 {
                proof {
                    crate::tree::lemma_spec_array_entries(children@);
                }
                None
            } else {
                proof {
                    crate::tree::lemma_spec_array_entries(children@);
                }
                Some(ErrorTree::Array(children))
            }
        },
    }
}

/// Law: every tree the lifted check produces is well-formed — leaf lists
/// are never empty, and the entries of every array node carry distinct,
/// strictly ascending indices within the bounds of the checked sequence.
pub proof fn lemma_composited_tree_wf<T, R: ScalarRule<T>>(
    rule: R,
    fmt: MessageFormat,
    v: Composited<T>,
)
    ensures
        composited_errors(rule, fmt, v) matches Some(t) ==> crate::tree::tree_wf(t),
    decreases v,
{
    match v {
        Composited::Single(x) => {},
        Composited::Optional(o) => match o {
            Option::None => {},
            Option::Some(b) => lemma_composited_tree_wf(rule, fmt, *b),
        },
        Composited::Sequence(items) => {
            lemma_composited_children_wf(rule, fmt, items@);
            let children = composited_children(rule, fmt, items@);
            assert forall|k: int| 0 <= k < children.len() implies crate::tree::array_entry_wf(
                #[trigger] children[k],
            ) by {
                assert(0 <= children[k].0 && crate::tree::tree_wf(children[k].1));
            }
        },
    }
}

/// The child entries of a sequence carry strictly ascending indices below
/// the sequence length, each holding a well-formed tree.
proof fn lemma_composited_children_wf<T, R: ScalarRule<T>>(
    rule: R,
    fmt: MessageFormat,
    items: Seq<Composited<T>>,
)
    ensures
        forall|k: int|
            0 <= k < composited_children(rule, fmt, items).len() ==> 0 <= (
            #[trigger] composited_children(rule, fmt, items)[k]).0 < items.len()
                && crate::tree::tree_wf(composited_children(rule, fmt, items)[k].1),
        forall|k1: int, k2: int|
            0 <= k1 < k2 < composited_children(rule, fmt, items).len()
                ==> composited_children(rule, fmt, items)[k1].0 < composited_children(
                rule,
                fmt,
                items,
            )[k2].0,
    decreases items,
{
    if items.len() > 0 {
        let prefix = items.subrange(0, items.len() - 1);
        lemma_composited_children_wf(rule, fmt, prefix);
        lemma_composited_tree_wf(rule, fmt, items[items.len() - 1]);
        let children = composited_children(rule, fmt, items);
        let prefix_children = composited_children(rule, fmt, prefix);
        match composited_errors(rule, fmt, items[items.len() - 1]) {
            Option::None => {},
            Option::Some(t) => {
                assert(forall|k: int|
                    0 <= k < prefix_children.len() ==> children[k] == prefix_children[k]);
                assert(children[children.len() - 1] == (
                    (items.len() - 1) as int,
                    t,
                ));
            },
        }
    }
}

/// The lifted check succeeds exactly when it produces no tree.
proof fn lemma_composited_errors_none<T, R: ScalarRule<T>>(
    rule: R,
    fmt: MessageFormat,
    v: Composited<T>,
)
    ensures
        composited_errors(rule, fmt, v) is None <==> composited_ok(rule, v),
    decreases v,
{
    match v {
        Composited::Single(x) => {},
        Composited::Optional(o) => match o {
            Option::None => {},
            Option::Some(b) => lemma_composited_errors_none(rule, fmt, *b),
        },
        Composited::Sequence(items) => {
            lemma_composited_children_none(rule, fmt, items@);
        },
    }
}

/// A sequence contributes no child entries exactly when every element
/// passes the lifted check.
proof fn lemma_composited_children_none<T, R: ScalarRule<T>>(
    rule: R,
    fmt: MessageFormat,
    items: Seq<Composited<T>>,
)
    ensures
        composited_children(rule, fmt, items).len() == 0 <==> forall|i: int|
            0 <= i < items.len() ==> composited_ok(rule, #[trigger] items[i]),
    decreases items,
{
    if items.len() > 0 {
        let prefix = items.subrange(0, items.len() - 1);
        lemma_composited_children_none(rule, fmt, prefix);
        lemma_composited_errors_none(rule, fmt, items[items.len() - 1]);
        assert(forall|i: int| 0 <= i < prefix.len() ==> prefix[i] == items[i]);
        if composited_children(rule, fmt, items).len() == 0 {
            assert(forall|i: int|
                0 <= i < items.len() ==> composited_ok(rule, #[trigger] items[i]));
        }
    }
}

} // verus!
