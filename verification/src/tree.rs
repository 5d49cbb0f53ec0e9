//! The error tree: a recursive structure that mirrors the shape of the
//! validated value.  Object nodes map field names to child trees, array
//! nodes map indices to child trees, and leaf nodes hold the formatted
//! messages of one position.
//!
//! A tree is only ever built for failures: validation success is the
//! absence of a tree, never an empty one.

use vstd::prelude::*;

verus! {

/// An owned field name, used as the key of object nodes.
#[derive(Debug)]
pub struct FieldName {
    name: String,
}

impl View for FieldName {
    type V = Seq<char>;

    closed spec fn view(&self) -> Seq<char> {
        self.name@
    }
}

impl FieldName {
    /// Wraps a field name.
    pub fn new(name: &str) -> (r: Self)
        ensures
            r@ == name@,
    {
        FieldName { name: name.to_owned() }
    }

    /// The name as text.
    pub fn as_str(&self) -> (r: &str)
        ensures
            r@ == self@,
    {
        self.name.as_str()
    }

    /// Whether two field names hold the same text.
    pub fn eq_name(&self, other: &FieldName) -> (r: bool)
        ensures
            r == (self@ == other@),
    {
        self.name == other.name
    }
}

/// One step of a path into a structured value: an object field or an
/// array/sequence position.
#[derive(Debug)]
pub enum FieldLocator {
    Name(FieldName),
    Index(usize),
}

/// The mathematical value of a [`FieldLocator`].
pub enum SpecLocator {
    Name(Seq<char>),
    Index(int),
}

impl View for FieldLocator {
    type V = SpecLocator;

    open spec fn view(&self) -> SpecLocator {
        match self {
            FieldLocator::Name(n) => SpecLocator::Name(n@),
            FieldLocator::Index(i) => SpecLocator::Index(*i as int),
        }
    }
}

/// The tree of validation failures for one value.
#[derive(Debug)]
pub enum ErrorTree {
    /// Failures of a structure with named fields: an ordered mapping from
    /// field name to the child tree of that field.
    Object(Vec<(FieldName, ErrorTree)>),
    /// Failures of a sequence or tuple: an ordered mapping from position
    /// to the child tree of that position.
    Array(Vec<(usize, ErrorTree)>),
    /// The formatted messages of a single failing value.
    Leaves(Vec<String>),
}

/// The mathematical value of an [`ErrorTree`].
pub enum SpecTree {
    Object(Seq<(Seq<char>, SpecTree)>),
    Array(Seq<(int, SpecTree)>),
    Leaves(Seq<Seq<char>>),
}

/// The mathematical value of an [`ErrorTree`].
pub open spec fn spec_tree(t: ErrorTree) -> SpecTree
    decreases t,
{
    match t {
        ErrorTree::Object(entries) => SpecTree::Object(spec_object_entries(entries@)),
        ErrorTree::Array(entries) => SpecTree::Array(spec_array_entries(entries@)),
        ErrorTree::Leaves(messages) => SpecTree::Leaves(spec_messages(messages@)),
    }
}

/// The mathematical value of the entry list of an object node.
pub open spec fn spec_object_entries(es: Seq<(FieldName, ErrorTree)>) -> Seq<(Seq<char>, SpecTree)>
    decreases es,
{
    if es.len() == 0 {
        Seq::empty()
    } else {
        spec_object_entries(es.subrange(0, es.len() - 1)).push(
            (es[es.len() - 1].0@, spec_tree(es[es.len() - 1].1)),
        )
    }
}

/// The mathematical value of the entry list of an array node.
pub open spec fn spec_array_entries(es: Seq<(usize, ErrorTree)>) -> Seq<(int, SpecTree)>
    decreases es,
{
    if es.len() == 0 {
        Seq::empty()
    } else {
        spec_array_entries(es.subrange(0, es.len() - 1)).push(
            (es[es.len() - 1].0 as int, spec_tree(es[es.len() - 1].1)),
        )
    }
}

/// The mathematical value of a message list.
pub open spec fn spec_messages(ms: Seq<String>) -> Seq<Seq<char>>
    decreases ms,
{
    if ms.len() == 0 {
        Seq::empty()
    } else {
        spec_messages(ms.subrange(0, ms.len() - 1)).push(ms[ms.len() - 1]@)
    }
}

impl View for ErrorTree {
    type V = SpecTree;

    open spec fn view(&self) -> SpecTree {
        spec_tree(*self)
    }
}

/// `spec_object_entries` maps the entry list elementwise.
pub broadcast proof fn lemma_spec_object_entries(es: Seq<(FieldName, ErrorTree)>)
    ensures
        #[trigger] spec_object_entries(es).len() == es.len(),
        forall|i: int| 0 <= i < es.len() ==> spec_object_entries(es)[i] == (
        es[i].0@,
        spec_tree(es[i].1),
        ),
    decreases es,
{
    if es.len() > 0 {
        lemma_spec_object_entries(es.subrange(0, es.len() - 1));
    }
}

/// `spec_array_entries` maps the entry list elementwise.
pub broadcast proof fn lemma_spec_array_entries(es: Seq<(usize, ErrorTree)>)
    ensures
        #[trigger] spec_array_entries(es).len() == es.len(),
        forall|i: int| 0 <= i < es.len() ==> spec_array_entries(es)[i] == (
        es[i].0 as int,
        spec_tree(es[i].1),
        ),
    decreases es,
{
    if es.len() > 0 {
        lemma_spec_array_entries(es.subrange(0, es.len() - 1));
    }
}

/// The mathematical value of a list of trees.
pub open spec fn spec_tree_list(ts: Seq<ErrorTree>) -> Seq<SpecTree>
    decreases ts,
{
    if ts.len() == 0 {
        Seq::empty()
    } else {
        spec_tree_list(ts.subrange(0, ts.len() - 1)).push(spec_tree(ts[ts.len() - 1]))
    }
}

/// `spec_tree_list` maps the list elementwise.
pub broadcast proof fn lemma_spec_tree_list(ts: Seq<ErrorTree>)
    ensures
        #[trigger] spec_tree_list(ts).len() == ts.len(),
        forall|i: int| 0 <= i < ts.len() ==> spec_tree_list(ts)[i] == spec_tree(ts[i]),
    decreases ts,
{
    if ts.len() > 0 {
        lemma_spec_tree_list(ts.subrange(0, ts.len() - 1));
    }
}

/// `spec_tree_list` distributes over concatenation.
pub proof fn lemma_spec_tree_list_concat(x: Seq<ErrorTree>, y: Seq<ErrorTree>)
    ensures
        spec_tree_list(x + y) == spec_tree_list(x) + spec_tree_list(y),
{
    lemma_spec_tree_list(x);
    lemma_spec_tree_list(y);
    lemma_spec_tree_list(x + y);
    assert(spec_tree_list(x + y) =~= spec_tree_list(x) + spec_tree_list(y));
}

/// `spec_messages` maps the message list elementwise.
pub broadcast proof fn lemma_spec_messages(ms: Seq<String>)
    ensures
        #[trigger] spec_messages(ms).len() == ms.len(),
        forall|i: int| 0 <= i < ms.len() ==> spec_messages(ms)[i] == ms[i]@,
    decreases ms,
{
    if ms.len() > 0 {
        lemma_spec_messages(ms.subrange(0, ms.len() - 1));
    }
}

/// All messages held anywhere in `t`, in depth-first order.
pub open spec fn flatten_messages(t: SpecTree) -> Seq<Seq<char>>
    decreases t,
{
    match t {
        SpecTree::Object(entries) => flatten_object_entries(entries),
        SpecTree::Array(entries) => flatten_array_entries(entries),
        SpecTree::Leaves(messages) => messages,
    }
}

/// All messages of the children of an object node, in entry order.
pub open spec fn flatten_object_entries(es: Seq<(Seq<char>, SpecTree)>) -> Seq<Seq<char>>
    decreases es,
{
    if es.len() == 0 {
        Seq::empty()
    } else {
        flatten_object_entries(es.subrange(0, es.len() - 1)) + flatten_messages(
            es[es.len() - 1].1,
        )
    }
}

/// All messages of the children of an array node, in entry order.
pub open spec fn flatten_array_entries(es: Seq<(int, SpecTree)>) -> Seq<Seq<char>>
    decreases es,
{
    if es.len() == 0 {
        Seq::empty()
    } else {
        flatten_array_entries(es.subrange(0, es.len() - 1)) + flatten_messages(es[es.len() - 1].1)
    }
}

/// The first position whose key equals `key`, or `-1` when absent.
pub open spec fn find_object_key(es: Seq<(Seq<char>, SpecTree)>, key: Seq<char>) -> int
    decreases es,
{
    if es.len() == 0 {
        -1
    } else if es[0].0 == key {
        0
    } else {
        let r = find_object_key(es.subrange(1, es.len() as int), key);
        if r < 0 {
            -1
        } else {
            r + 1
        }
    }
}

/// The first position whose key equals `key`, or `-1` when absent.
pub open spec fn find_array_key(es: Seq<(int, SpecTree)>, key: int) -> int
    decreases es,
{
    if es.len() == 0 {
        -1
    } else if es[0].0 == key {
        0
    } else {
        let r = find_array_key(es.subrange(1, es.len() as int), key);
        if r < 0 {
            -1
        } else {
            r + 1
        }
    }
}

/// Combines the failure trees of one position: trees of the same kind are
/// merged key by key (`b`'s entries under a key already present in `a` are
/// merged into that entry; new keys are appended in order), leaf lists are
/// concatenated in order, and trees of different kinds fall back to the
/// flat concatenation of all their messages.
pub open spec fn spec_merge(a: SpecTree, b: SpecTree) -> SpecTree
    decreases b,
{
    match (a, b) {
        (SpecTree::Leaves(x), SpecTree::Leaves(y)) => SpecTree::Leaves(x + y),
        (SpecTree::Object(x), SpecTree::Object(y)) => SpecTree::Object(merge_object_seqs(x, y)),
        (SpecTree::Array(x), SpecTree::Array(y)) => SpecTree::Array(merge_array_seqs(x, y)),
        (a2, b2) => SpecTree::Leaves(flatten_messages(a2) + flatten_messages(b2)),
    }
}

/// Folds the entries of `y` into `x`, left to right.
pub open spec fn merge_object_seqs(
    x: Seq<(Seq<char>, SpecTree)>,
    y: Seq<(Seq<char>, SpecTree)>,
) -> Seq<(Seq<char>, SpecTree)>
    decreases y,
{
    if y.len() == 0 {
        x
    } else {
        insert_object_seq(merge_object_seqs(x, y.subrange(0, y.len() - 1)), y[y.len() - 1])
    }
}

/// Folds one entry into `x`: merged into the entry with the same key when
/// one exists, appended otherwise.
pub open spec fn insert_object_seq(
    x: Seq<(Seq<char>, SpecTree)>,
    e: (Seq<char>, SpecTree),
) -> Seq<(Seq<char>, SpecTree)>
    decreases e,
{
    let i = find_object_key(x, e.0);
    if i < 0 {
        x.push(e)
    } else {
        x.update(i, (e.0, spec_merge(x[i].1, e.1)))
    }
}

/// Folds the entries of `y` into `x`, left to right.
pub open spec fn merge_array_seqs(x: Seq<(int, SpecTree)>, y: Seq<(int, SpecTree)>) -> Seq<
    (int, SpecTree),
>
    decreases y,
{
    if y.len() == 0 {
        x
    } else {
        insert_array_seq(merge_array_seqs(x, y.subrange(0, y.len() - 1)), y[y.len() - 1])
    }
}

/// Folds one entry into `x`: merged into the entry with the same key when
/// one exists, appended otherwise.
pub open spec fn insert_array_seq(x: Seq<(int, SpecTree)>, e: (int, SpecTree)) -> Seq<
    (int, SpecTree),
>
    decreases e,
{
    let i = find_array_key(x, e.0);
    if i < 0 {
        x.push(e)
    } else {
        x.update(i, (e.0, spec_merge(x[i].1, e.1)))
    }
}

/// `spec_messages` distributes over concatenation.
proof fn lemma_spec_messages_concat(x: Seq<String>, y: Seq<String>)
    ensures
        spec_messages(x + y) == spec_messages(x) + spec_messages(y),
{
    lemma_spec_messages(x);
    lemma_spec_messages(y);
    lemma_spec_messages(x + y);
    assert(spec_messages(x + y) =~= spec_messages(x) + spec_messages(y));
}

/// Collects every message of `t` into one flat list, in depth-first order.
pub fn flatten_tree(t: &ErrorTree) -> (r: Vec<String>)
    ensures
        spec_messages(r@) == flatten_messages(t@),
    decreases *t,
{
    let mut r: Vec<String> = Vec::new();
    match t {
        ErrorTree::Leaves(messages) => {
            let mut i: usize = 0;
            while i < messages.len()
                invariant
                    i <= messages@.len(),
                    r@ == messages@.subrange(0, i as int),
                decreases messages@.len() - i,
            {
                r.push(messages[i].clone());
                proof {
                    assert(r@ =~= messages@.subrange(0, i + 1 as int));
                }
                i = i + 1;
            }
            proof {
                assert(r@ =~= messages@);
            }
        },
        ErrorTree::Object(entries) => {
            let ghost spec_es = spec_object_entries(entries@);
            proof {
                lemma_spec_object_entries(entries@);
            }
            let mut i: usize = 0;
            while i < entries.len()
                invariant
                    *t == ErrorTree::Object(*entries),
                    i <= entries@.len(),
                    spec_es == spec_object_entries(entries@),
                    spec_es.len() == entries@.len(),
                    forall|j: int| 0 <= j < entries@.len() ==> spec_es[j] == (
                    entries@[j].0@,
                    spec_tree(entries@[j].1),
                    ),
                    spec_messages(r@) == flatten_object_entries(spec_es.subrange(0, i as int)),
                decreases entries@.len() - i,
            {
                proof {
                    assert(decreases_to!(*t => (*t)->Object_0));
                    assert(decreases_to!(*entries => entries@));
                    assert(decreases_to!(entries@ => entries@[i as int]));
                    assert(decreases_to!(entries@[i as int] => entries@[i as int].1));
                    assert(decreases_to!(*t => entries@[i as int].1));
                }
                let mut child = flatten_tree(&entries[i].1);
                proof {
                    lemma_spec_messages(r@);
                    lemma_spec_messages(child@);
                    lemma_spec_messages_concat(r@, child@);
                    assert(spec_es.subrange(0, i + 1 as int).subrange(0, i as int) =~= spec_es
                        .subrange(0, i as int));
                    assert(spec_es.subrange(0, i + 1 as int)[i as int] == spec_es[i as int]);
                }
                r.append(&mut child);
                proof {
                    assert(spec_messages(r@) =~= flatten_object_entries(
                        spec_es.subrange(0, i + 1 as int),
                    ));
                }
                i = i + 1;
            }
            proof {
                assert(spec_es.subrange(0, entries@.len() as int) =~= spec_es);
            }
        },
        ErrorTree::Array(entries) => {
            let ghost spec_es = spec_array_entries(entries@);
            proof {
                lemma_spec_array_entries(entries@);
            }
            let mut i: usize = 0;
            while i < entries.len()
                invariant
                    *t == ErrorTree::Array(*entries),
                    i <= entries@.len(),
                    spec_es == spec_array_entries(entries@),
                    spec_es.len() == entries@.len(),
                    forall|j: int| 0 <= j < entries@.len() ==> spec_es[j] == (
                    entries@[j].0 as int,
                    spec_tree(entries@[j].1),
                    ),
                    spec_messages(r@) == flatten_array_entries(spec_es.subrange(0, i as int)),
                decreases entries@.len() - i,
            {
                proof {
                    assert(decreases_to!(*t => (*t)->Array_0));
                    assert(decreases_to!(*entries => entries@));
                    assert(decreases_to!(entries@ => entries@[i as int]));
                    assert(decreases_to!(entries@[i as int] => entries@[i as int].1));
                    assert(decreases_to!(*t => entries@[i as int].1));
                }
                let mut child = flatten_tree(&entries[i].1);
                proof {
                    lemma_spec_messages_concat(r@, child@);
                    assert(spec_es.subrange(0, i + 1 as int).subrange(0, i as int) =~= spec_es
                        .subrange(0, i as int));
                    assert(spec_es.subrange(0, i + 1 as int)[i as int] == spec_es[i as int]);
                }
                r.append(&mut child);
                proof {
                    assert(spec_messages(r@) =~= flatten_array_entries(
                        spec_es.subrange(0, i + 1 as int),
                    ));
                }
                i = i + 1;
            }
            proof {
                assert(spec_es.subrange(0, entries@.len() as int) =~= spec_es);
            }
        },
    }
    r
}

/// The first position of `es` whose key equals `key` is the first position
/// not excluded by a forward scan.
proof fn lemma_find_object_key_at(es: Seq<(Seq<char>, SpecTree)>, key: Seq<char>, i: int)
    requires
        0 <= i <= es.len(),
        forall|j: int| 0 <= j < i ==> es[j].0 != key,
        i == es.len() || es[i].0 == key,
    ensures
        find_object_key(es, key) == if i == es.len() {
            -1int
        } else {
            i
        },
    decreases es.len(),
{
    if es.len() > 0 && es[0].0 != key {
        let tail = es.subrange(1, es.len() as int);
        assert(forall|j: int| 0 <= j < tail.len() ==> tail[j] == es[j + 1]);
        lemma_find_object_key_at(tail, key, i - 1);
    }
}

/// The first position of `es` whose key equals `key` is the first position
/// not excluded by a forward scan.
proof fn lemma_find_array_key_at(es: Seq<(int, SpecTree)>, key: int, i: int)
    requires
        0 <= i <= es.len(),
        forall|j: int| 0 <= j < i ==> es[j].0 != key,
        i == es.len() || es[i].0 == key,
    ensures
        find_array_key(es, key) == if i == es.len() {
            -1int
        } else {
            i
        },
    decreases es.len(),
{
    if es.len() > 0 && es[0].0 != key {
        let tail = es.subrange(1, es.len() as int);
        assert(forall|j: int| 0 <= j < tail.len() ==> tail[j] == es[j + 1]);
        lemma_find_array_key_at(tail, key, i - 1);
    }
}

/// The first entry of `entries` whose name equals `key`, by forward scan.
fn find_name_index(entries: &Vec<(FieldName, ErrorTree)>, key: &FieldName) -> (r: Option<usize>)
    ensures
        r matches Some(i) ==> i < entries@.len() && find_object_key(
            spec_object_entries(entries@),
            key@,
        ) == i as int && spec_object_entries(entries@)[i as int].0 == key@,
        r is None ==> find_object_key(spec_object_entries(entries@), key@) == -1,
{
    proof {
        lemma_spec_object_entries(entries@);
    }
    let mut i: usize = 0;
    while i < entries.len()
        invariant
            i <= entries@.len(),
            forall|j: int| 0 <= j < i ==> #[trigger] entries@[j].0@ != key@,
        decreases entries@.len() - i,
    {
        if entries[i].0.eq_name(key) {
            proof {
                lemma_spec_object_entries(entries@);
                lemma_find_object_key_at(spec_object_entries(entries@), key@, i as int);
            }
            return Some(i);
        }
        i = i + 1;
    }
    proof {
        lemma_spec_object_entries(entries@);
        lemma_find_object_key_at(
            spec_object_entries(entries@),
            key@,
            entries@.len() as int,
        );
    }
    None
}

/// The first entry of `entries` whose index equals `key`, by forward scan.
fn find_index_index(entries: &Vec<(usize, ErrorTree)>, key: usize) -> (r: Option<usize>)
    ensures
        r matches Some(i) ==> i < entries@.len() && find_array_key(
            spec_array_entries(entries@),
            key as int,
        ) == i as int && spec_array_entries(entries@)[i as int].0 == key as int,
        r is None ==> find_array_key(spec_array_entries(entries@), key as int) == -1,
{
    proof {
        lemma_spec_array_entries(entries@);
    }
    let mut i: usize = 0;
    while i < entries.len()
        invariant
            i <= entries@.len(),
            forall|j: int| 0 <= j < i ==> #[trigger] entries@[j].0 != key,
        decreases entries@.len() - i,
    {
        if entries[i].0 == key {
            proof {
                lemma_spec_array_entries(entries@);
                lemma_find_array_key_at(spec_array_entries(entries@), key as int, i as int);
            }
            return Some(i);
        }
        i = i + 1;
    }
    proof {
        lemma_spec_array_entries(entries@);
        lemma_find_array_key_at(spec_array_entries(entries@), key as int, entries@.len() as int);
    }
    None
}

/// Folds one owned entry into an object entry list.
fn insert_object_entry(acc: Vec<(FieldName, ErrorTree)>, e: (FieldName, ErrorTree)) -> (r: Vec<
    (FieldName, ErrorTree),
>)
    ensures
        spec_object_entries(r@) == insert_object_seq(
            spec_object_entries(acc@),
            (e.0@, spec_tree(e.1)),
        ),
    decreases e,
{
    let mut acc = acc;
    let ghost acc0 = acc@;
    let (name, tree) = e;
    match find_name_index(&acc, &name) {
        None => {
            acc.push((name, tree));
            proof {
                assert(acc@.subrange(0, acc0.len() as int) =~= acc0);
                assert(spec_object_entries(acc@) =~= insert_object_seq(
                    spec_object_entries(acc0),
                    (e.0@, spec_tree(e.1)),
                ));
            }
            acc
        },
        Some(i) => {
            let (held_name, held_tree) = acc.remove(i);
            let merged = merge_trees(held_tree, tree);
            acc.insert(i, (held_name, merged));
            proof {
                let spec_acc0 = spec_object_entries(acc0);
                lemma_spec_object_entries(acc0);
                lemma_spec_object_entries(acc@);
                assert(acc@ =~= acc0.update(i as int, (acc0[i as int].0, merged)));
                let target = insert_object_seq(spec_acc0, (e.0@, spec_tree(e.1)));
                assert(find_object_key(spec_acc0, e.0@) == i as int);
                assert(target == spec_acc0.update(
                    i as int,
                    (e.0@, spec_merge(spec_acc0[i as int].1, spec_tree(e.1))),
                ));
                assert(spec_acc0[i as int].0 == e.0@);
                assert(spec_acc0[i as int].1 == spec_tree(acc0[i as int].1));
                assert(spec_tree(merged) == spec_merge(
                    spec_tree(acc0[i as int].1),
                    spec_tree(e.1),
                ));
                assert(spec_object_entries(acc@)[i as int] == (
                    acc0[i as int].0@,
                    spec_tree(merged),
                ));
                assert(acc0[i as int].0@ == spec_acc0[i as int].0);
                assert(spec_object_entries(acc@) =~= target);
            }
            acc
        },
    }
}

/// Folds one owned entry into an array entry list.
fn insert_array_entry(acc: Vec<(usize, ErrorTree)>, e: (usize, ErrorTree)) -> (r: Vec<
    (usize, ErrorTree),
>)
    ensures
        spec_array_entries(r@) == insert_array_seq(
            spec_array_entries(acc@),
            (e.0 as int, spec_tree(e.1)),
        ),
    decreases e,
{
    let mut acc = acc;
    let ghost acc0 = acc@;
    let (key, tree) = e;
    match find_index_index(&acc, key) {
        None => {
            acc.push((key, tree));
            proof {
                assert(acc@.subrange(0, acc0.len() as int) =~= acc0);
                assert(spec_array_entries(acc@) =~= insert_array_seq(
                    spec_array_entries(acc0),
                    (e.0 as int, spec_tree(e.1)),
                ));
            }
            acc
        },
        Some(i) => {
            let (held_key, held_tree) = acc.remove(i);
            let merged = merge_trees(held_tree, tree);
            acc.insert(i, (held_key, merged));
            proof {
                let spec_acc0 = spec_array_entries(acc0);
                lemma_spec_array_entries(acc0);
                lemma_spec_array_entries(acc@);
                assert(acc@ =~= acc0.update(i as int, (acc0[i as int].0, merged)));
                let target = insert_array_seq(spec_acc0, (e.0 as int, spec_tree(e.1)));
                assert(find_array_key(spec_acc0, e.0 as int) == i as int);
                assert(target == spec_acc0.update(
                    i as int,
                    (e.0 as int, spec_merge(spec_acc0[i as int].1, spec_tree(e.1))),
                ));
                assert(spec_acc0[i as int].0 == e.0 as int);
                assert(spec_acc0[i as int].1 == spec_tree(acc0[i as int].1));
                assert(spec_tree(merged) == spec_merge(
                    spec_tree(acc0[i as int].1),
                    spec_tree(e.1),
                ));
                assert(spec_array_entries(acc@)[i as int] == (
                    acc0[i as int].0 as int,
                    spec_tree(merged),
                ));
                assert(spec_array_entries(acc@) =~= target);
            }
            acc
        },
    }
}

/// Folds the entries of `y` into `x`, left to right.
fn merge_object_vecs(x: Vec<(FieldName, ErrorTree)>, y: Vec<(FieldName, ErrorTree)>) -> (r: Vec<
    (FieldName, ErrorTree),
>)
    ensures
        spec_object_entries(r@) == merge_object_seqs(
            spec_object_entries(x@),
            spec_object_entries(y@),
        ),
    decreases y@,
{
    let mut y = y;
    let ghost y0 = y@;
    if y.len() == 0 {
        x
    } else {
        let e = y.pop().unwrap();
        let r0 = merge_object_vecs(x, y);
        let r = insert_object_entry(r0, e);
        proof {
            let spec_y0 = spec_object_entries(y0);
            assert(spec_y0.subrange(0, spec_y0.len() - 1) =~= spec_object_entries(
                y0.subrange(0, y0.len() - 1),
            ));
        }
        r
    }
}

/// Folds the entries of `y` into `x`, left to right.
fn merge_array_vecs(x: Vec<(usize, ErrorTree)>, y: Vec<(usize, ErrorTree)>) -> (r: Vec<
    (usize, ErrorTree),
>)
    ensures
        spec_array_entries(r@) == merge_array_seqs(spec_array_entries(x@), spec_array_entries(y@)),
    decreases y@,
{
    let mut y = y;
    let ghost y0 = y@;
    if y.len() == 0 {
        x
    } else {
        let e = y.pop().unwrap();
        let r0 = merge_array_vecs(x, y);
        let r = insert_array_entry(r0, e);
        proof {
            let spec_y0 = spec_array_entries(y0);
            assert(spec_y0.subrange(0, spec_y0.len() - 1) =~= spec_array_entries(
                y0.subrange(0, y0.len() - 1),
            ));
        }
        r
    }
}

/// Combines the failure trees of one position, as [`spec_merge`] states:
/// same-kind nodes merge key by key, leaf lists concatenate, and nodes of
/// different kinds fall back to the flat list of all their messages.
pub fn merge_trees(a: ErrorTree, b: ErrorTree) -> (r: ErrorTree)
    ensures
        r@ == spec_merge(a@, b@),
    decreases b,
{
    match (a, b) {
        (ErrorTree::Leaves(x), ErrorTree::Leaves(y)) => {
            let mut x = x;
            let mut y = y;
            proof {
                lemma_spec_messages_concat(x@, y@);
            }
            x.append(&mut y);
            ErrorTree::Leaves(x)
        },
        (ErrorTree::Object(x), ErrorTree::Object(y)) => ErrorTree::Object(merge_object_vecs(x, y)),
        (ErrorTree::Array(x), ErrorTree::Array(y)) => ErrorTree::Array(merge_array_vecs(x, y)),
        (other_a, other_b) => {
            let mut messages = flatten_tree(&other_a);
            let mut more = flatten_tree(&other_b);
            proof {
                lemma_spec_messages_concat(messages@, more@);
            }
            messages.append(&mut more);
            ErrorTree::Leaves(messages)
        },
    }
}

/// Well-formedness of a tree: leaf lists are never empty, node entry lists
/// are never empty, and sibling keys are distinct.  Every tree the engine
/// hands out satisfies this.
pub open spec fn tree_wf(t: SpecTree) -> bool
    decreases t,
{
    match t {
        SpecTree::Object(entries) => entries.len() > 0 && object_entries_wf(entries),
        SpecTree::Array(entries) => entries.len() > 0 && array_entries_wf(entries),
        SpecTree::Leaves(messages) => messages.len() > 0,
    }
}

/// Well-formedness of an object entry list: distinct keys, well-formed
/// children.
pub open spec fn object_entries_wf(entries: Seq<(Seq<char>, SpecTree)>) -> bool
    decreases entries,
{
    (forall|i: int, j: int| 0 <= i < j < entries.len() ==> entries[i].0 != entries[j].0)
        && (forall|i: int| 0 <= i < entries.len() ==> tree_wf(#[trigger] entries[i].1))
}

/// Well-formedness of one array entry: a nonnegative key and a
/// well-formed child.
pub open spec fn array_entry_wf(e: (int, SpecTree)) -> bool
    decreases e,
{
    e.0 >= 0 && tree_wf(e.1)
}

/// Well-formedness of an array entry list: distinct nonnegative keys,
/// well-formed children.
pub open spec fn array_entries_wf(entries: Seq<(int, SpecTree)>) -> bool
    decreases entries,
{
    (forall|i: int, j: int| 0 <= i < j < entries.len() ==> entries[i].0 != entries[j].0)
        && (forall|i: int| 0 <= i < entries.len() ==> array_entry_wf(#[trigger] entries[i]))
}

/// A well-formed tree holds at least one message: empty leaf lists and
/// childless nodes do not occur, so flattening never loses the fact that
/// something failed.
pub proof fn lemma_flatten_nonempty(t: SpecTree)
    requires
        tree_wf(t),
    ensures
        flatten_messages(t).len() > 0,
    decreases t,
{
    match t {
        SpecTree::Object(entries) => {
            lemma_flatten_object_len(entries);
            lemma_flatten_nonempty(entries[entries.len() - 1].1);
        },
        SpecTree::Array(entries) => {
            lemma_flatten_array_len(entries);
            assert(array_entry_wf(entries[entries.len() - 1]));
            lemma_flatten_nonempty(entries[entries.len() - 1].1);
        },
        SpecTree::Leaves(messages) => {},
    }
}

/// Flattening an object entry list yields at least the messages of its
/// last child.
proof fn lemma_flatten_object_len(entries: Seq<(Seq<char>, SpecTree)>)
    requires
        entries.len() > 0,
    ensures
        flatten_object_entries(entries).len() >= flatten_messages(
            entries[entries.len() - 1].1,
        ).len(),
{
}

/// Flattening an array entry list yields at least the messages of its
/// last child.
proof fn lemma_flatten_array_len(entries: Seq<(int, SpecTree)>)
    requires
        entries.len() > 0,
    ensures
        flatten_array_entries(entries).len() >= flatten_messages(
            entries[entries.len() - 1].1,
        ).len(),
{
}

/// What the position returned by `find_object_key` means: `-1` exactly
/// when the key is absent, and otherwise a valid position holding the key.
proof fn lemma_find_object_key_props(es: Seq<(Seq<char>, SpecTree)>, key: Seq<char>)
    ensures
        find_object_key(es, key) == -1 ==> forall|i: int| 0 <= i < es.len() ==> es[i].0 != key,
        find_object_key(es, key) != -1 ==> 0 <= find_object_key(es, key) < es.len() && es[
            find_object_key(es, key)
        ].0 == key,
    decreases es,
{
    if es.len() > 0 && es[0].0 != key {
        let tail = es.subrange(1, es.len() as int);
        lemma_find_object_key_props(tail, key);
        let r = find_object_key(tail, key);
        if r >= 0 {
            assert(tail[r] == es[r + 1]);
            assert(find_object_key(es, key) == r + 1);
        } else {
            assert(find_object_key(es, key) == -1);
            assert forall|i: int| 0 <= i < es.len() implies es[i].0 != key by {
                if i > 0 {
                    assert(es[i] == tail[i - 1]);
                }
            }
        }
    }
}

/// What the position returned by `find_array_key` means: `-1` exactly
/// when the key is absent, and otherwise a valid position holding the key.
proof fn lemma_find_array_key_props(es: Seq<(int, SpecTree)>, key: int)
    ensures
        find_array_key(es, key) == -1 ==> forall|i: int| 0 <= i < es.len() ==> es[i].0 != key,
        find_array_key(es, key) != -1 ==> 0 <= find_array_key(es, key) < es.len() && es[
            find_array_key(es, key)
        ].0 == key,
    decreases es,
{
    if es.len() > 0 && es[0].0 != key {
        let tail = es.subrange(1, es.len() as int);
        lemma_find_array_key_props(tail, key);
        let r = find_array_key(tail, key);
        if r >= 0 {
            assert(tail[r] == es[r + 1]);
            assert(find_array_key(es, key) == r + 1);
        } else {
            assert(find_array_key(es, key) == -1);
            assert forall|i: int| 0 <= i < es.len() implies es[i].0 != key by {
                if i > 0 {
                    assert(es[i] == tail[i - 1]);
                }
            }
        }
    }
}

/// Law: merging the failure trees of one position preserves
/// well-formedness — the merged tree again has nonempty leaf lists,
/// distinct sibling keys and well-formed children throughout.
pub proof fn lemma_merge_wf(a: SpecTree, b: SpecTree)
    requires
        tree_wf(a),
        tree_wf(b),
    ensures
        tree_wf(spec_merge(a, b)),
    decreases b,
{
    match (a, b) {
        (SpecTree::Leaves(x), SpecTree::Leaves(y)) => {},
        (SpecTree::Object(x), SpecTree::Object(y)) => {
            lemma_merge_object_seqs_wf(x, y);
        },
        (SpecTree::Array(x), SpecTree::Array(y)) => {
            lemma_merge_array_seqs_wf(x, y);
        },
        (a2, b2) => {
            lemma_flatten_nonempty(a2);
            lemma_flatten_nonempty(b2);
        },
    }
}

/// Folding well-formed object entries into a well-formed object entry
/// list keeps it well-formed and at least as long.
proof fn lemma_merge_object_seqs_wf(x: Seq<(Seq<char>, SpecTree)>, y: Seq<(Seq<char>, SpecTree)>)
    requires
        object_entries_wf(x),
        object_entries_wf(y),
    ensures
        object_entries_wf(merge_object_seqs(x, y)),
        merge_object_seqs(x, y).len() >= x.len(),
    decreases y,
{
    if y.len() > 0 {
        let prefix = y.subrange(0, y.len() - 1);
        assert(forall|i: int| 0 <= i < prefix.len() ==> prefix[i] == y[i]);
        assert(object_entries_wf(prefix)) by {
            assert forall|i: int, j: int|
                0 <= i < j < prefix.len() implies prefix[i].0 != prefix[j].0 by {
                assert(prefix[i] == y[i] && prefix[j] == y[j]);
            }
            assert forall|i: int| 0 <= i < prefix.len() implies tree_wf(#[trigger] prefix[i].1) by {
                assert(prefix[i] == y[i]);
                assert(tree_wf(y[i].1));
            }
        }
        lemma_merge_object_seqs_wf(x, prefix);
        assert(tree_wf(y[y.len() - 1].1));
        lemma_insert_object_seq_wf(merge_object_seqs(x, prefix), y[y.len() - 1]);
    }
}

/// Folding one well-formed entry into a well-formed object entry list
/// keeps it well-formed and at least as long.
proof fn lemma_insert_object_seq_wf(x: Seq<(Seq<char>, SpecTree)>, e: (Seq<char>, SpecTree))
    requires
        object_entries_wf(x),
        tree_wf(e.1),
    ensures
        object_entries_wf(insert_object_seq(x, e)),
        insert_object_seq(x, e).len() >= x.len(),
    decreases e,
{
    lemma_find_object_key_props(x, e.0);
    let i = find_object_key(x, e.0);
    if i < 0 {
        let r = x.push(e);
        assert(forall|j: int| 0 <= j < x.len() ==> r[j] == x[j]);
        assert(r[x.len() as int] == e);
    } else {
        lemma_merge_wf(x[i].1, e.1);
        let r = x.update(i, (e.0, spec_merge(x[i].1, e.1)));
        assert(forall|j: int| 0 <= j < r.len() ==> r[j].0 == x[j].0);
        assert(forall|j: int| 0 <= j < r.len() && j != i ==> r[j] == x[j]);
    }
}

/// Folding well-formed array entries into a well-formed array entry list
/// keeps it well-formed and at least as long.
proof fn lemma_merge_array_seqs_wf(x: Seq<(int, SpecTree)>, y: Seq<(int, SpecTree)>)
    requires
        array_entries_wf(x),
        array_entries_wf(y),
    ensures
        array_entries_wf(merge_array_seqs(x, y)),
        merge_array_seqs(x, y).len() >= x.len(),
    decreases y,
{
    if y.len() > 0 {
        let prefix = y.subrange(0, y.len() - 1);
        assert(forall|i: int| 0 <= i < prefix.len() ==> prefix[i] == y[i]);
        assert(array_entries_wf(prefix)) by {
            assert forall|i: int, j: int|
                0 <= i < j < prefix.len() implies prefix[i].0 != prefix[j].0 by {
                assert(prefix[i] == y[i] && prefix[j] == y[j]);
            }
            assert forall|i: int| 0 <= i < prefix.len() implies array_entry_wf(
                #[trigger] prefix[i],
            ) by {
                assert(prefix[i] == y[i]);
                assert(array_entry_wf(y[i]));
            }
        }
        lemma_merge_array_seqs_wf(x, prefix);
        assert(array_entry_wf(y[y.len() - 1]));
        lemma_insert_array_seq_wf(merge_array_seqs(x, prefix), y[y.len() - 1]);
    }
}

/// Folding one well-formed entry into a well-formed array entry list
/// keeps it well-formed and at least as long.
proof fn lemma_insert_array_seq_wf(x: Seq<(int, SpecTree)>, e: (int, SpecTree))
    requires
        array_entries_wf(x),
        e.0 >= 0,
        tree_wf(e.1),
    ensures
        array_entries_wf(insert_array_seq(x, e)),
        insert_array_seq(x, e).len() >= x.len(),
    decreases e,
{
    lemma_find_array_key_props(x, e.0);
    let i = find_array_key(x, e.0);
    if i < 0 {
        let r = x.push(e);
        assert(forall|j: int| 0 <= j < x.len() ==> r[j] == x[j]);
        assert(r[x.len() as int] == e);
    } else {
        lemma_merge_wf(x[i].1, e.1);
        let r = x.update(i, (e.0, spec_merge(x[i].1, e.1)));
        assert(forall|j: int| 0 <= j < r.len() ==> r[j].0 == x[j].0);
        assert(forall|j: int| 0 <= j < r.len() && j != i ==> r[j] == x[j]);
    }
}

} // verus!
