//! The error accumulator: collects the outcomes of all checks against all
//! fields of one structured value, in declaration order, and assembles
//! them into a single error tree whose shape follows the structure.

use vstd::prelude::*;

use crate::message::dec_digits;
use crate::tree::{
    merge_trees, spec_merge, spec_tree, spec_tree_list, ErrorTree, FieldLocator, FieldName,
    SpecLocator, SpecTree,
};

verus! {

/// The shape of the structure being validated, which decides the root
/// node of its error tree.
#[derive(Clone, Copy, Debug, PartialEq, Eq, Structural)]
pub enum StructShape {
    /// A structure with named fields: the root is an object node.
    NamedFields,
    /// A tuple-shaped structure with more than one unnamed field: the
    /// root is an array node keyed by field position.
    UnnamedFields,
    /// A structure with exactly one unnamed field: the errors of that
    /// field stand at the root directly, with no extra nesting level.
    NewType,
}

/// An in-progress collection of failures, keyed by field locator.  Keys
/// appear in first-insertion order; each key holds the failure trees of
/// its checks in insertion order.
#[derive(Debug)]
pub struct ErrorAccumulator {
    entries: Vec<(FieldLocator, Vec<ErrorTree>)>,
}

/// The mathematical value of the accumulator's entry list.
pub open spec fn spec_accum_entries(es: Seq<(FieldLocator, Vec<ErrorTree>)>) -> Seq<
    (SpecLocator, Seq<SpecTree>),
>
    decreases es,
{
    if es.len() == 0 {
        Seq::empty()
    } else {
        spec_accum_entries(es.subrange(0, es.len() - 1)).push(
            (es[es.len() - 1].0@, spec_tree_list(es[es.len() - 1].1@)),
        )
    }
}

/// `spec_accum_entries` maps the entry list elementwise.
pub broadcast proof fn lemma_spec_accum_entries(es: Seq<(FieldLocator, Vec<ErrorTree>)>)
    ensures
        #[trigger] spec_accum_entries(es).len() == es.len(),
        forall|i: int| 0 <= i < es.len() ==> spec_accum_entries(es)[i] == (
        es[i].0@,
        spec_tree_list(es[i].1@),
        ),
    decreases es,
{
    if es.len() > 0 {
        lemma_spec_accum_entries(es.subrange(0, es.len() - 1));
    }
}

impl View for ErrorAccumulator {
    type V = Seq<(SpecLocator, Seq<SpecTree>)>;

    closed spec fn view(&self) -> Seq<(SpecLocator, Seq<SpecTree>)> {
        spec_accum_entries(self.entries@)
    }
}

/// Well-formedness of the accumulator: keys are distinct and every key
/// holds at least one tree.  `new` establishes it and every insertion
/// preserves it.
pub open spec fn accum_wf(es: Seq<(SpecLocator, Seq<SpecTree>)>) -> bool {
    (forall|i: int, j: int| 0 <= i < j < es.len() ==> es[i].0 != es[j].0) && (forall|i: int|
        0 <= i < es.len() ==> #[trigger] es[i].1.len() > 0)
}

/// The first position of `es` holding `loc`, or `-1` when absent.
pub open spec fn find_locator(es: Seq<(SpecLocator, Seq<SpecTree>)>, loc: SpecLocator) -> int
    decreases es,
{
    if es.len() == 0 {
        -1
    } else if es[0].0 == loc {
        0
    } else {
        let r = find_locator(es.subrange(1, es.len() as int), loc);
        if r < 0 {
            -1
        } else {
            r + 1
        }
    }
}

/// The accumulator after inserting one tree at `loc`: appended to the
/// trees of an existing key, or opening a new key at the end.
pub open spec fn accum_insert(
    es: Seq<(SpecLocator, Seq<SpecTree>)>,
    loc: SpecLocator,
    t: SpecTree,
) -> Seq<(SpecLocator, Seq<SpecTree>)> {
    let i = find_locator(es, loc);
    if i < 0 {
        es.push((loc, seq![t]))
    } else {
        es.update(i, (es[i].0, es[i].1.push(t)))
    }
}

/// The first position of `es` holding `loc` is the first position not
/// excluded by a forward scan.
proof fn lemma_find_locator_at(
    es: Seq<(SpecLocator, Seq<SpecTree>)>,
    loc: SpecLocator,
    i: int,
)
    requires
        0 <= i <= es.len(),
        forall|j: int| 0 <= j < i ==> es[j].0 != loc,
        i == es.len() || es[i].0 == loc,
    ensures
        find_locator(es, loc) == if i == es.len() {
            -1int
        } else {
            i
        },
    decreases es.len(),
{
    if es.len() > 0 && es[0].0 != loc {
        let tail = es.subrange(1, es.len() as int);
        assert(forall|j: int| 0 <= j < tail.len() ==> tail[j] == es[j + 1]);
        lemma_find_locator_at(tail, loc, i - 1);
    }
}

/// The object key a locator yields: a name stands as itself; an index
/// (which never occurs under a named-fields shape in intended use) is
/// rendered as its decimal text, so the function stays total.
pub open spec fn loc_name_text(l: SpecLocator) -> Seq<char> {
    match l {
        SpecLocator::Name(n) => n,
        SpecLocator::Index(i) => dec_digits(i as nat),
    }
}

/// The array key a locator yields: an index stands as itself; a name
/// (which never occurs under a tuple shape in intended use) falls back to
/// the entry's position, so the function stays total.
pub open spec fn loc_index(l: SpecLocator, position: int) -> int {
    match l {
        SpecLocator::Index(i) => i,
        SpecLocator::Name(_) => position,
    }
}

/// Folds a list of trees into one, left to right, with [`spec_merge`].
/// The empty list yields an empty leaf node; it never arises from a
/// well-formed accumulator.
pub open spec fn merge_list(ts: Seq<SpecTree>) -> SpecTree
    decreases ts,
{
    if ts.len() == 0 {
        SpecTree::Leaves(Seq::empty())
    } else if ts.len() == 1 {
        ts[0]
    } else {
        spec_merge(merge_list(ts.subrange(0, ts.len() - 1)), ts[ts.len() - 1])
    }
}

/// The object entries assembled from the accumulator, in insertion order.
pub open spec fn object_entries_of(es: Seq<(SpecLocator, Seq<SpecTree>)>) -> Seq<
    (Seq<char>, SpecTree),
>
    decreases es,
{
    if es.len() == 0 {
        Seq::empty()
    } else {
        object_entries_of(es.subrange(0, es.len() - 1)).push(
            (loc_name_text(es[es.len() - 1].0), merge_list(es[es.len() - 1].1)),
        )
    }
}

/// The array entries assembled from the accumulator, in insertion order.
pub open spec fn array_entries_of(es: Seq<(SpecLocator, Seq<SpecTree>)>) -> Seq<(int, SpecTree)>
    decreases es,
{
    if es.len() == 0 {
        Seq::empty()
    } else {
        array_entries_of(es.subrange(0, es.len() - 1)).push(
            (loc_index(es[es.len() - 1].0, es.len() - 1), merge_list(es[es.len() - 1].1)),
        )
    }
}

/// All trees of all entries, in insertion order.
pub open spec fn all_trees(es: Seq<(SpecLocator, Seq<SpecTree>)>) -> Seq<SpecTree>
    decreases es,
{
    if es.len() == 0 {
        Seq::empty()
    } else {
        all_trees(es.subrange(0, es.len() - 1)) + es[es.len() - 1].1
    }
}

/// The tree assembled from the collected failures: none when nothing was
/// recorded; otherwise an object node for a named-fields structure, an
/// array node for a tuple-shaped structure, and the merged child itself
/// (no extra nesting) for a structure with exactly one unnamed field.
pub open spec fn spec_finish(
    es: Seq<(SpecLocator, Seq<SpecTree>)>,
    shape: StructShape,
) -> Option<SpecTree> {
    if es.len() == 0 {
        Option::None
    } else {
        Option::Some(
            match shape {
                StructShape::NamedFields => SpecTree::Object(object_entries_of(es)),
                StructShape::UnnamedFields => SpecTree::Array(array_entries_of(es)),
                StructShape::NewType => merge_list(all_trees(es)),
            },
        )
    }
}

/// Law: a validation pass that records no failure yields no error value,
/// whatever the declared shape — and one that recorded any failure
/// always yields one.
pub proof fn lemma_finish_none_iff_empty(
    es: Seq<(SpecLocator, Seq<SpecTree>)>,
    shape: StructShape,
)
    ensures
        spec_finish(es, shape) is None <==> es.len() == 0,
{
}

/// Whether every tree recorded anywhere in the accumulator is
/// well-formed.
pub open spec fn accum_trees_wf(es: Seq<(SpecLocator, Seq<SpecTree>)>) -> bool {
    forall|i: int, j: int|
        0 <= i < es.len() && 0 <= j < es[i].1.len() ==> crate::tree::tree_wf(
            #[trigger] es[i].1[j],
        )
}

/// Folding a nonempty list of well-formed trees yields a well-formed
/// tree.
proof fn lemma_merge_list_wf(ts: Seq<SpecTree>)
    requires
        ts.len() > 0,
        forall|k: int| 0 <= k < ts.len() ==> crate::tree::tree_wf(#[trigger] ts[k]),
    ensures
        crate::tree::tree_wf(merge_list(ts)),
    decreases ts,
{
    if ts.len() > 1 {
        let prefix = ts.subrange(0, ts.len() - 1);
        assert(forall|k: int| 0 <= k < prefix.len() ==> prefix[k] == ts[k]);
        lemma_merge_list_wf(prefix);
        crate::tree::lemma_merge_wf(merge_list(prefix), ts[ts.len() - 1]);
    }
}

/// `object_entries_of` maps the accumulator elementwise.
proof fn lemma_object_entries_of(es: Seq<(SpecLocator, Seq<SpecTree>)>)
    ensures
        object_entries_of(es).len() == es.len(),
        forall|i: int| 0 <= i < es.len() ==> #[trigger] object_entries_of(es)[i] == (
        loc_name_text(es[i].0),
        merge_list(es[i].1),
        ),
    decreases es,
{
    if es.len() > 0 {
        lemma_object_entries_of(es.subrange(0, es.len() - 1));
    }
}

/// `array_entries_of` maps the accumulator elementwise, keying each
/// entry by its own position.
proof fn lemma_array_entries_of(es: Seq<(SpecLocator, Seq<SpecTree>)>)
    ensures
        array_entries_of(es).len() == es.len(),
        forall|i: int| 0 <= i < es.len() ==> #[trigger] array_entries_of(es)[i] == (
        loc_index(es[i].0, i),
        merge_list(es[i].1),
        ),
    decreases es,
{
    if es.len() > 0 {
        lemma_array_entries_of(es.subrange(0, es.len() - 1));
    }
}

/// Every tree of `all_trees` comes from some entry, and a well-formed
/// accumulator with at least one entry contributes at least one tree.
proof fn lemma_all_trees_wf(es: Seq<(SpecLocator, Seq<SpecTree>)>)
    requires
        accum_wf(es),
        accum_trees_wf(es),
    ensures
        forall|k: int| 0 <= k < all_trees(es).len() ==> crate::tree::tree_wf(
            #[trigger] all_trees(es)[k],
        ),
        es.len() > 0 ==> all_trees(es).len() > 0,
    decreases es,
{
    if es.len() > 0 {
        let prefix = es.subrange(0, es.len() - 1);
        assert(forall|i: int| 0 <= i < prefix.len() ==> prefix[i] == es[i]);
        assert(accum_wf(prefix) && accum_trees_wf(prefix)) by {
            assert(forall|i: int, j: int|
                0 <= i < j < prefix.len() ==> prefix[i].0 == es[i].0 && prefix[j].0 == es[j].0);
            assert forall|i: int| 0 <= i < prefix.len() implies #[trigger] prefix[i].1.len()
                > 0 by {
                assert(prefix[i] == es[i]);
                assert(es[i].1.len() > 0);
            }
            assert forall|i: int, j: int|
                0 <= i < prefix.len() && 0 <= j < prefix[i].1.len() implies crate::tree::tree_wf(
                #[trigger] prefix[i].1[j],
            ) by {
                assert(prefix[i] == es[i]);
                assert(crate::tree::tree_wf(es[i].1[j]));
            }
        }
        lemma_all_trees_wf(prefix);
        let last = es[es.len() - 1];
        assert(es[es.len() - 1].1.len() > 0);
        assert forall|k: int| 0 <= k < all_trees(es).len() implies crate::tree::tree_wf(
            #[trigger] all_trees(es)[k],
        ) by {
            if k < all_trees(prefix).len() {
                assert(all_trees(es)[k] == all_trees(prefix)[k]);
            } else {
                let j = k - all_trees(prefix).len();
                assert(all_trees(es)[k] == last.1[j]);
                assert(crate::tree::tree_wf(es[es.len() - 1].1[j]));
            }
        }
    }
}

/// Law: the tree assembled by `finish` from a well-formed accumulator
/// whose recorded trees are well-formed, and whose locators match the
/// declared shape, is itself well-formed: nonempty leaf lists and
/// distinct sibling keys throughout.
pub proof fn lemma_finish_wf(es: Seq<(SpecLocator, Seq<SpecTree>)>, shape: StructShape)
    requires
        accum_wf(es),
        accum_trees_wf(es),
        shape == StructShape::NamedFields ==> forall|i: int|
            0 <= i < es.len() ==> (#[trigger] es[i].0) is Name,
        shape == StructShape::UnnamedFields ==> forall|i: int|
            0 <= i < es.len() ==> ((#[trigger] es[i].0) matches SpecLocator::Index(n) && n >= 0),
    ensures
        spec_finish(es, shape) matches Some(t) ==> crate::tree::tree_wf(t),
{
    if es.len() == 0 {
        return ;
    }
    assert forall|i: int| 0 <= i < es.len() implies crate::tree::tree_wf(
        #[trigger] merge_list(es[i].1),
    ) by {
        assert(es[i].1.len() > 0);
        assert(forall|j: int|
            0 <= j < es[i].1.len() ==> crate::tree::tree_wf(#[trigger] es[i].1[j]));
        lemma_merge_list_wf(es[i].1);
    }
    match shape {
        StructShape::NamedFields => {
            lemma_object_entries_of(es);
            let out = object_entries_of(es);
            assert forall|i: int, j: int| 0 <= i < j < out.len() implies out[i].0 != out[j].0 by {
                assert(es[i].0 is Name && es[j].0 is Name);
                assert(es[i].0 != es[j].0);
            }
            assert(forall|i: int|
                0 <= i < out.len() ==> crate::tree::tree_wf(#[trigger] out[i].1));
        },
        StructShape::UnnamedFields => {
            lemma_array_entries_of(es);
            let out = array_entries_of(es);
            assert forall|i: int, j: int| 0 <= i < j < out.len() implies out[i].0 != out[j].0 by {
                assert(es[i].0 is Index && es[j].0 is Index);
                assert(es[i].0 != es[j].0);
            }
            assert forall|i: int| 0 <= i < out.len() implies crate::tree::array_entry_wf(
                #[trigger] out[i],
            ) by {
                assert(es[i].0 matches SpecLocator::Index(n) && n >= 0);
                assert(out[i] == (loc_index(es[i].0, i), merge_list(es[i].1)));
                assert(crate::tree::tree_wf(merge_list(es[i].1)));
            }
        },
        StructShape::NewType => {
            lemma_all_trees_wf(es);
            lemma_merge_list_wf(all_trees(es));
        },
    }
}

/// The concrete field name a locator yields under a named-fields shape.
fn locator_name(loc: FieldLocator) -> (r: FieldName)
    ensures
        r@ == loc_name_text(loc@),
{
    match loc {
        FieldLocator::Name(n) => n,
        FieldLocator::Index(i) => {
            let text = crate::message::decimal_string(i);
            FieldName::new(text.as_str())
        },
    }
}

/// Folds an owned list of trees into one, as [`merge_list`] states.
fn merge_tree_list(trees: Vec<ErrorTree>) -> (r: ErrorTree)
    ensures
        spec_tree(r) == merge_list(spec_tree_list(trees@)),
    decreases trees@.len(),
{
    let mut trees = trees;
    let ghost trees0 = trees@;
    proof {
        crate::tree::lemma_spec_tree_list(trees0);
    }
    if trees.len() == 0 {
        let empty: Vec<String> = Vec::new();
        let ghost empty_view = empty@;
        let r = ErrorTree::Leaves(empty);
        proof {
            assert(crate::tree::spec_messages(empty_view) =~= Seq::<Seq<char>>::empty());
        }
        r
    } else if trees.len() == 1 {
        let r = trees.pop().unwrap();
        proof {
            assert(spec_tree_list(trees0)[0] == spec_tree(r));
        }
        r
    } else {
        let last = trees.pop().unwrap();
        let first = merge_tree_list(trees);
        proof {
            assert(trees@ =~= trees0.subrange(0, trees0.len() - 1));
            assert(spec_tree_list(trees@) =~= spec_tree_list(trees0).subrange(
                0,
                spec_tree_list(trees0).len() - 1,
            ));
        }
        merge_trees(first, last)
    }
}

impl FieldLocator {
    /// Whether two locators denote the same path segment.
    pub fn eq_locator(&self, other: &FieldLocator) -> (r: bool)
        ensures
            r == (self@ == other@),
    {
        match (self, other) {
            (FieldLocator::Name(a), FieldLocator::Name(b)) => a.eq_name(b),
            (FieldLocator::Index(a), FieldLocator::Index(b)) => a == b,
            _ => false,
        }
    }
}

impl ErrorAccumulator {
    /// An empty accumulator.
    pub fn new() -> (r: Self)
        ensures
            r@ == Seq::<(SpecLocator, Seq<SpecTree>)>::empty(),
    {
        ErrorAccumulator { entries: Vec::new() }
    }

    /// Whether nothing has been recorded: a structure whose fields all
    /// passed yields no error tree at all.
    pub fn is_empty(&self) -> (r: bool)
        ensures
            r == (self@.len() == 0),
    {
        proof {
            lemma_spec_accum_entries(self.entries@);
        }
        self.entries.len() == 0
    }

    /// Records one failure tree under `loc`.
    pub fn push_tree(&mut self, loc: FieldLocator, tree: ErrorTree)
        ensures
            final(self)@ == accum_insert(old(self)@, loc@, spec_tree(tree)),
            accum_wf(old(self)@) ==> accum_wf(final(self)@),
            accum_trees_wf(old(self)@) && crate::tree::tree_wf(spec_tree(tree))
                ==> accum_trees_wf(final(self)@),
    {
        proof {
            lemma_spec_accum_entries(self.entries@);
        }
        let ghost es0 = self@;
        let mut i: usize = 0;
        let n: usize = self.entries.len();
        while i < n
            invariant
                i <= n,
                n == self.entries@.len(),
                old(self)@ == es0,
                es0 == spec_accum_entries(self.entries@),
                es0.len() == n,
                forall|j: int| 0 <= j < n ==> es0[j] == (
                #[trigger] self.entries@[j].0@,
                spec_tree_list(self.entries@[j].1@),
                ),
                forall|j: int| 0 <= j < i ==> es0[j].0 != loc@,
            decreases n - i,
        {
            if self.entries[i].0.eq_locator(&loc) {
                proof {
                    lemma_find_locator_at(es0, loc@, i as int);
                }
                let ghost entries0 = self.entries@;
                let (held_loc, mut trees) = self.entries.remove(i);
                let ghost trees0 = trees@;
                trees.push(tree);
                self.entries.insert(i, (held_loc, trees));
                proof {
                    assert(trees@.subrange(0, trees0.len() as int) =~= trees0);
                    crate::tree::lemma_spec_tree_list(trees@);
                    crate::tree::lemma_spec_tree_list(trees0);
                    assert(spec_tree_list(trees@) =~= spec_tree_list(trees0).push(
                        spec_tree(tree),
                    ));
                    assert(self.entries@ =~= entries0.update(
                        i as int,
                        (entries0[i as int].0, trees),
                    ));
                    lemma_spec_accum_entries(entries0);
                    lemma_spec_accum_entries(self.entries@);
                    assert(self@ =~= accum_insert(es0, loc@, spec_tree(tree)));
                    if accum_wf(es0) {
                        assert(accum_wf(self@));
                    }
                    if accum_trees_wf(es0) && crate::tree::tree_wf(spec_tree(tree)) {
                        assert forall|a: int, b: int|
                            0 <= a < self@.len() && 0 <= b < self@[a].1.len()
                                implies crate::tree::tree_wf(#[trigger] self@[a].1[b]) by {
                            if a == i as int {
                                if b < es0[a].1.len() {
                                    assert(self@[a].1[b] == es0[a].1[b]);
                                    assert(crate::tree::tree_wf(es0[a].1[b]));
                                } else {
                                    assert(self@[a].1[b] == spec_tree(tree));
                                }
                            } else {
                                assert(self@[a].1[b] == es0[a].1[b]);
                                assert(crate::tree::tree_wf(es0[a].1[b]));
                            }
                        }
                    }
                }
                return ;
            }
            i = i + 1;
        }
        proof {
            lemma_find_locator_at(es0, loc@, es0.len() as int);
        }
        let ghost entries0 = self.entries@;
        let mut trees: Vec<ErrorTree> = Vec::new();
        let ghost empty_trees = trees@;
        trees.push(tree);
        self.entries.push((loc, trees));
        proof {
            assert(trees@.subrange(0, 0) =~= empty_trees);
            crate::tree::lemma_spec_tree_list(trees@);
            assert(spec_tree_list(trees@) =~= seq![spec_tree(tree)]);
            assert(self.entries@.subrange(0, entries0.len() as int) =~= entries0);
            lemma_spec_accum_entries(entries0);
            lemma_spec_accum_entries(self.entries@);
            assert(self@ =~= accum_insert(es0, loc@, spec_tree(tree)));
            if accum_wf(es0) {
                assert(accum_wf(self@));
            }
        }
    }

    /// Assembles the collected failures into the error tree of the whole
    /// structure, as [`spec_finish`] states.  An accumulator that holds
    /// nothing yields `None`: a structure with zero failing fields never
    /// yields an error value.
    pub fn finish(self, shape: StructShape) -> (r: Option<ErrorTree>)
        ensures
            crate::composited::opt_tree_view(r) == spec_finish(self@, shape),
    {
        let ghost es0 = self@;
        let mut entries = self.entries;
        let ghost entries0 = entries@;
        proof {
            lemma_spec_accum_entries(entries0);
        }
        if entries.len() == 0 {
            return None;
        }
        let n: usize = entries.len();
        match shape {
            StructShape::NamedFields => {
                let mut out: Vec<(FieldName, ErrorTree)> = Vec::new();
                let mut k: usize = 0;
                while k < n
                    invariant
                        k <= n,
                        n == entries0.len(),
                        entries@ == entries0.subrange(k as int, n as int),
                        es0 == spec_accum_entries(entries0),
                        es0.len() == n,
                        forall|j: int| 0 <= j < n ==> es0[j] == (
                        #[trigger] entries0[j].0@,
                        spec_tree_list(entries0[j].1@),
                        ),
                        crate::tree::spec_object_entries(out@) == object_entries_of(
                            es0.subrange(0, k as int),
                        ),
                    decreases n - k,
                {
                    let ghost out0 = out@;
                    let (loc, trees) = entries.remove(0);
                    proof {
                        assert(loc == entries0[k as int].0);
                        assert(trees == entries0[k as int].1);
                        assert(entries@ =~= entries0.subrange(k + 1 as int, n as int));
                    }
                    let name = locator_name(loc);
                    let merged = merge_tree_list(trees);
                    out.push((name, merged));
                    proof {
                        assert(out@.subrange(0, out0.len() as int) =~= out0);
                        assert(es0.subrange(0, k + 1 as int).subrange(0, k as int) =~= es0
                            .subrange(0, k as int));
                        assert(es0.subrange(0, k + 1 as int)[k as int] == es0[k as int]);
                        assert(crate::tree::spec_object_entries(out@) =~= object_entries_of(
                            es0.subrange(0, k + 1 as int),
                        ));
                    }
                    k = k + 1;
                }
                proof {
                    assert(es0.subrange(0, n as int) =~= es0);
                }
                Some(ErrorTree::Object(out))
            },
            StructShape::UnnamedFields => {
                let mut out: Vec<(usize, ErrorTree)> = Vec::new();
                let mut k: usize = 0;
                while k < n
                    invariant
                        k <= n,
                        n == entries0.len(),
                        entries@ == entries0.subrange(k as int, n as int),
                        es0 == spec_accum_entries(entries0),
                        es0.len() == n,
                        forall|j: int| 0 <= j < n ==> es0[j] == (
                        #[trigger] entries0[j].0@,
                        spec_tree_list(entries0[j].1@),
                        ),
                        crate::tree::spec_array_entries(out@) == array_entries_of(
                            es0.subrange(0, k as int),
                        ),
                    decreases n - k,
                {
                    let ghost out0 = out@;
                    let (loc, trees) = entries.remove(0);
                    proof {
                        assert(loc == entries0[k as int].0);
                        assert(trees == entries0[k as int].1);
                        assert(es0[k as int] == (
                            entries0[k as int].0@,
                            spec_tree_list(entries0[k as int].1@),
                        ));
                        assert(es0[k as int].0 == loc@);
                        assert(es0[k as int].1 == spec_tree_list(trees@));
                        assert(entries@ =~= entries0.subrange(k + 1 as int, n as int));
                    }
                    let index: usize = match &loc {
                        FieldLocator::Index(i) => *i,
                        FieldLocator::Name(_) => k,
                    };
                    let merged = merge_tree_list(trees);
                    out.push((index, merged));
                    proof {
                        assert(out@.subrange(0, out0.len() as int) =~= out0);
                        assert(es0.subrange(0, k + 1 as int).subrange(0, k as int) =~= es0
                            .subrange(0, k as int));
                        assert(es0.subrange(0, k + 1 as int)[k as int] == es0[k as int]);
                        assert(crate::tree::spec_array_entries(out@) =~= array_entries_of(
                            es0.subrange(0, k + 1 as int),
                        ));
                    }
                    k = k + 1;
                }
                proof {
                    assert(es0.subrange(0, n as int) =~= es0);
                }
                Some(ErrorTree::Array(out))
            },
            StructShape::NewType => {
                let mut all: Vec<ErrorTree> = Vec::new();
                let mut k: usize = 0;
                while k < n
                    invariant
                        k <= n,
                        n == entries0.len(),
                        entries@ == entries0.subrange(k as int, n as int),
                        es0 == spec_accum_entries(entries0),
                        es0.len() == n,
                        forall|j: int| 0 <= j < n ==> es0[j] == (
                        #[trigger] entries0[j].0@,
                        spec_tree_list(entries0[j].1@),
                        ),
                        spec_tree_list(all@) == all_trees(es0.subrange(0, k as int)),
                    decreases n - k,
                {
                    let ghost all0 = all@;
                    let (_loc, mut trees) = entries.remove(0);
                    proof {
                        assert(trees == entries0[k as int].1);
                        assert(es0[k as int] == (
                            entries0[k as int].0@,
                            spec_tree_list(entries0[k as int].1@),
                        ));
                        assert(es0[k as int].1 == spec_tree_list(trees@));
                        assert(entries@ =~= entries0.subrange(k + 1 as int, n as int));
                        crate::tree::lemma_spec_tree_list_concat(all0, trees@);
                    }
                    all.append(&mut trees);
                    proof {
                        assert(es0.subrange(0, k + 1 as int).subrange(0, k as int) =~= es0
                            .subrange(0, k as int));
                        assert(es0.subrange(0, k + 1 as int)[k as int] == es0[k as int]);
                        assert(spec_tree_list(all@) =~= all_trees(
                            es0.subrange(0, k + 1 as int),
                        ));
                    }
                    k = k + 1;
                }
                proof {
                    assert(es0.subrange(0, n as int) =~= es0);
                }
                Some(merge_tree_list(all))
            },
        }
    }

    /// Records one formatted message under `loc`, as a leaf.
    pub fn push_message(&mut self, loc: FieldLocator, message: String)
        ensures
            final(self)@ == accum_insert(
                old(self)@,
                loc@,
                SpecTree::Leaves(seq![message@]),
            ),
            accum_wf(old(self)@) ==> accum_wf(final(self)@),
            accum_trees_wf(old(self)@) ==> accum_trees_wf(final(self)@),
    {
        let messages = vec![message];
        let ghost messages_view = messages@;
        let leaves = ErrorTree::Leaves(messages);
        proof {
            crate::tree::lemma_spec_messages(messages_view);
            assert(spec_tree(leaves)->Leaves_0 =~= seq![message@]);
        }
        self.push_tree(loc, leaves);
    }
}

} // verus!
