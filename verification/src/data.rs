//! Conversion of an error tree to a generic structured-data value, and a
//! JSON rendering of that value.
//!
//! Object nodes become keyed maps, array nodes become maps keyed by the
//! decimal text of the index, and leaf nodes become lists of strings.
//! Only the outward direction exists: nothing turns generic data back
//! into a tree.

use vstd::prelude::*;
use vstd::string::{StrSliceExecFns, StringExecFns};

use crate::message::dec_digits;
use crate::tree::{
    spec_tree, ErrorTree, SpecTree,
};

verus! {

/// A generic structured-data value: text, an ordered list, or an ordered
/// map with text keys.  Any serialization format can consume this shape.
#[derive(Debug)]
pub enum DataValue {
    Text(String),
    List(Vec<DataValue>),
    Object(Vec<(String, DataValue)>),
}

/// The mathematical value of a [`DataValue`].
pub enum SpecData {
    Text(Seq<char>),
    List(Seq<SpecData>),
    Object(Seq<(Seq<char>, SpecData)>),
}

/// The mathematical value of a [`DataValue`].
pub open spec fn spec_data(d: DataValue) -> SpecData
    decreases d,
{
    match d {
        DataValue::Text(s) => SpecData::Text(s@),
        DataValue::List(items) => SpecData::List(spec_data_list(items@)),
        DataValue::Object(entries) => SpecData::Object(spec_data_map(entries@)),
    }
}

/// The mathematical value of a list of data values.
pub open spec fn spec_data_list(items: Seq<DataValue>) -> Seq<SpecData>
    decreases items,
{
    if items.len() == 0 {
        Seq::empty()
    } else {
        spec_data_list(items.subrange(0, items.len() - 1)).push(spec_data(items[items.len() - 1]))
    }
}

/// The mathematical value of a map entry list.
pub open spec fn spec_data_map(entries: Seq<(String, DataValue)>) -> Seq<(Seq<char>, SpecData)>
    decreases entries,
{
    if entries.len() == 0 {
        Seq::empty()
    } else {
        spec_data_map(entries.subrange(0, entries.len() - 1)).push(
            (entries[entries.len() - 1].0@, spec_data(entries[entries.len() - 1].1)),
        )
    }
}

impl View for DataValue {
    type V = SpecData;

    open spec fn view(&self) -> SpecData {
        spec_data(*self)
    }
}

/// `spec_data_list` maps the list elementwise.
pub broadcast proof fn lemma_spec_data_list(items: Seq<DataValue>)
    ensures
        #[trigger] spec_data_list(items).len() == items.len(),
        forall|i: int| 0 <= i < items.len() ==> spec_data_list(items)[i] == spec_data(items[i]),
    decreases items,
{
    if items.len() > 0 {
        lemma_spec_data_list(items.subrange(0, items.len() - 1));
    }
}

/// `spec_data_map` maps the entry list elementwise.
pub broadcast proof fn lemma_spec_data_map(entries: Seq<(String, DataValue)>)
    ensures
        #[trigger] spec_data_map(entries).len() == entries.len(),
        forall|i: int| 0 <= i < entries.len() ==> spec_data_map(entries)[i] == (
        entries[i].0@,
        spec_data(entries[i].1),
        ),
    decreases entries,
{
    if entries.len() > 0 {
        lemma_spec_data_map(entries.subrange(0, entries.len() - 1));
    }
}

/// The generic-data form of an error tree: leaves become a list of texts,
/// an object becomes a map keyed by field name, and an array becomes a
/// map keyed by the decimal text of each index.
pub open spec fn data_of_tree(t: SpecTree) -> SpecData
    decreases t,
{
    match t {
        SpecTree::Leaves(messages) => SpecData::List(texts_of(messages)),
        SpecTree::Object(entries) => SpecData::Object(data_of_object_entries(entries)),
        SpecTree::Array(entries) => SpecData::Object(data_of_array_entries(entries)),
    }
}

/// Each message as a text value.
pub open spec fn texts_of(ms: Seq<Seq<char>>) -> Seq<SpecData>
    decreases ms,
{
    if ms.len() == 0 {
        Seq::empty()
    } else {
        texts_of(ms.subrange(0, ms.len() - 1)).push(SpecData::Text(ms[ms.len() - 1]))
    }
}

/// The map entries of an object node: field name to converted child.
pub open spec fn data_of_object_entries(es: Seq<(Seq<char>, SpecTree)>) -> Seq<
    (Seq<char>, SpecData),
>
    decreases es,
{
    if es.len() == 0 {
        Seq::empty()
    } else {
        data_of_object_entries(es.subrange(0, es.len() - 1)).push(
            (es[es.len() - 1].0, data_of_tree(es[es.len() - 1].1)),
        )
    }
}

/// The map entries of an array node: decimal index text to converted
/// child.
pub open spec fn data_of_array_entries(es: Seq<(int, SpecTree)>) -> Seq<(Seq<char>, SpecData)>
    decreases es,
{
    if es.len() == 0 {
        Seq::empty()
    } else {
        data_of_array_entries(es.subrange(0, es.len() - 1)).push(
            (dec_digits(es[es.len() - 1].0 as nat), data_of_tree(es[es.len() - 1].1)),
        )
    }
}

impl ErrorTree {
    /// Converts the tree to its generic structured-data form, reproducing
    /// every field name, index and message text exactly, as
    /// [`data_of_tree`] states.
    pub fn to_data(&self) -> (r: DataValue)
        ensures
            r@ == data_of_tree(self@),
        decreases *self,
    {
        match self {
            ErrorTree::Leaves(messages) => {
                proof {
                    crate::tree::lemma_spec_messages(messages@);
                }
                let mut items: Vec<DataValue> = Vec::new();
                let mut i: usize = 0;
                while i < messages.len()
                    invariant
                        i <= messages@.len(),
                        crate::tree::spec_messages(messages@).len() == messages@.len(),
                        forall|j: int| 0 <= j < messages@.len()
                            ==> crate::tree::spec_messages(messages@)[j] == messages@[j]@,
                        spec_data_list(items@) == texts_of(
                            crate::tree::spec_messages(messages@).subrange(0, i as int),
                        ),
                    decreases messages@.len() - i,
                {
                    let ghost items0 = items@;
                    let ghost sms = crate::tree::spec_messages(messages@);
                    let text = messages[i].clone();
                    proof {
                        assert(text@ == sms[i as int]);
                    }
                    items.push(DataValue::Text(text));
                    proof {
                        assert(items@.subrange(0, items0.len() as int) =~= items0);
                        assert(items@[items0.len() as int] == DataValue::Text(text));
                        assert(spec_data(DataValue::Text(text)) == SpecData::Text(
                            sms[i as int],
                        ));
                        assert(spec_data_list(items@) == spec_data_list(items0).push(
                            SpecData::Text(sms[i as int]),
                        ));
                        assert(sms.subrange(0, i + 1 as int).subrange(0, i as int) =~= sms
                            .subrange(0, i as int));
                        assert(sms.subrange(0, i + 1 as int)[i as int] == sms[i as int]);
                        assert(texts_of(sms.subrange(0, i + 1 as int)) == texts_of(
                            sms.subrange(0, i as int),
                        ).push(SpecData::Text(sms[i as int])));
                        assert(spec_data_list(items@) =~= texts_of(
                            sms.subrange(0, i + 1 as int),
                        ));
                    }
                    i = i + 1;
                }
                proof {
                    crate::tree::lemma_spec_messages(messages@);
                    let sms = crate::tree::spec_messages(messages@);
                    assert(sms.subrange(0, sms.len() as int) =~= sms);
                }
                DataValue::List(items)
            },
            ErrorTree::Object(entries) => {
                let ghost spec_es = crate::tree::spec_object_entries(entries@);
                proof {
                    crate::tree::lemma_spec_object_entries(entries@);
                }
                let mut out: Vec<(String, DataValue)> = Vec::new();
                let mut i: usize = 0;
                while i < entries.len()
                    invariant
                        *self == ErrorTree::Object(*entries),
                        i <= entries@.len(),
                        spec_es == crate::tree::spec_object_entries(entries@),
                        spec_es.len() == entries@.len(),
                        forall|j: int| 0 <= j < entries@.len() ==> spec_es[j] == (
                        entries@[j].0@,
                        spec_tree(entries@[j].1),
                        ),
                        spec_data_map(out@) == data_of_object_entries(
                            spec_es.subrange(0, i as int),
                        ),
                    decreases entries@.len() - i,
                {
                    proof {
                        assert(decreases_to!(*self => (*self)->Object_0));
                        assert(decreases_to!(*entries => entries@));
                        assert(decreases_to!(entries@ => entries@[i as int]));
                        assert(decreases_to!(entries@[i as int] => entries@[i as int].1));
                        assert(decreases_to!(*self => entries@[i as int].1));
                    }
                    let ghost out0 = out@;
                    let name = entries[i].0.as_str().to_owned();
                    let child = entries[i].1.to_data();
                    out.push((name, child));
                    proof {
                        assert(out@.subrange(0, out0.len() as int) =~= out0);
                        assert(spec_es.subrange(0, i + 1 as int).subrange(0, i as int) =~= spec_es
                            .subrange(0, i as int));
                        assert(spec_es.subrange(0, i + 1 as int)[i as int] == spec_es[i as int]);
                        assert(spec_data_map(out@) =~= data_of_object_entries(
                            spec_es.subrange(0, i + 1 as int),
                        ));
                    }
                    i = i + 1;
                }
                proof {
                    assert(spec_es.subrange(0, entries@.len() as int) =~= spec_es);
                }
                DataValue::Object(out)
            },
            ErrorTree::Array(entries) => {
                let ghost spec_es = crate::tree::spec_array_entries(entries@);
                proof {
                    crate::tree::lemma_spec_array_entries(entries@);
                }
                let mut out: Vec<(String, DataValue)> = Vec::new();
                let mut i: usize = 0;
                while i < entries.len()
                    invariant
                        *self == ErrorTree::Array(*entries),
                        i <= entries@.len(),
                        spec_es == crate::tree::spec_array_entries(entries@),
                        spec_es.len() == entries@.len(),
                        forall|j: int| 0 <= j < entries@.len() ==> spec_es[j] == (
                        entries@[j].0 as int,
                        spec_tree(entries@[j].1),
                        ),
                        spec_data_map(out@) == data_of_array_entries(
                            spec_es.subrange(0, i as int),
                        ),
                    decreases entries@.len() - i,
                {
                    proof {
                        assert(decreases_to!(*self => (*self)->Array_0));
                        assert(decreases_to!(*entries => entries@));
                        assert(decreases_to!(entries@ => entries@[i as int]));
                        assert(decreases_to!(entries@[i as int] => entries@[i as int].1));
                        assert(decreases_to!(*self => entries@[i as int].1));
                    }
                    let ghost out0 = out@;
                    let key = crate::message::decimal_string(entries[i].0);
                    let child = entries[i].1.to_data();
                    out.push((key, child));
                    proof {
                        assert(out@.subrange(0, out0.len() as int) =~= out0);
                        assert(spec_es.subrange(0, i + 1 as int).subrange(0, i as int) =~= spec_es
                            .subrange(0, i as int));
                        assert(spec_es.subrange(0, i + 1 as int)[i as int] == spec_es[i as int]);
                        assert(spec_data_map(out@) =~= data_of_array_entries(
                            spec_es.subrange(0, i + 1 as int),
                        ));
                    }
                    i = i + 1;
                }
                proof {
                    assert(spec_es.subrange(0, entries@.len() as int) =~= spec_es);
                }
                DataValue::Object(out)
            },
        }
    }

    /// Renders the tree as a JSON document of its generic-data form.
    pub fn to_json_string(&self) -> (r: String)
        ensures
            r@ == json_of_data(data_of_tree(self@)),
    {
        let data = self.to_data();
        data_to_json(&data)
    }
}

/// The hexadecimal digit character for `d`.
pub open spec fn hex_digit(d: int) -> char
    recommends
        0 <= d < 16,
{
    if d < 10 {
        crate::message::digit_char(d)
    } else if d == 10 {
        'a'
    } else if d == 11 {
        'b'
    } else if d == 12 {
        'c'
    } else if d == 13 {
        'd'
    } else if d == 14 {
        'e'
    } else {
        'f'
    }
}

/// The JSON escape of one character: quote and backslash are escaped,
/// the common control characters use their short forms, any other
/// control character uses a `\u` sequence, and everything else stands as
/// itself.
pub open spec fn json_escape_char(c: char) -> Seq<char> {
    if c == '"' {
        seq!['\\', '"']
    } else if c == '\\' {
        seq!['\\', '\\']
    } else if c == '\n' {
        seq!['\\', 'n']
    } else if c == '\r' {
        seq!['\\', 'r']
    } else if c == '\t' {
        seq!['\\', 't']
    } else if (c as u32) < 32 {
        seq!['\\', 'u', '0', '0', hex_digit(c as u32 as int / 16), hex_digit(
            c as u32 as int % 16,
        )]
    } else {
        seq![c]
    }
}

/// The JSON escape of a text, character by character.
pub open spec fn json_escape(s: Seq<char>) -> Seq<char>
    decreases s,
{
    if s.len() == 0 {
        Seq::empty()
    } else {
        json_escape(s.subrange(0, s.len() - 1)) + json_escape_char(s[s.len() - 1])
    }
}

/// The JSON document of a generic-data value: texts are quoted and
/// escaped, lists use brackets, maps use braces, with no added spacing.
pub open spec fn json_of_data(d: SpecData) -> Seq<char>
    decreases d,
{
    match d {
        SpecData::Text(s) => seq!['"'] + json_escape(s) + seq!['"'],
        SpecData::List(items) => seq!['['] + json_of_list(items) + seq![']'],
        SpecData::Object(entries) => seq!['{'] + json_of_map(entries) + seq!['}'],
    }
}

/// The comma-separated JSON of the elements of a list.
pub open spec fn json_of_list(items: Seq<SpecData>) -> Seq<char>
    decreases items,
{
    if items.len() == 0 {
        Seq::empty()
    } else if items.len() == 1 {
        json_of_data(items[0])
    } else {
        json_of_list(items.subrange(0, items.len() - 1)) + seq![','] + json_of_data(
            items[items.len() - 1],
        )
    }
}

/// The comma-separated JSON of the entries of a map.
pub open spec fn json_of_map(entries: Seq<(Seq<char>, SpecData)>) -> Seq<char>
    decreases entries,
{
    if entries.len() == 0 {
        Seq::empty()
    } else if entries.len() == 1 {
        json_of_entry(entries[0])
    } else {
        json_of_map(entries.subrange(0, entries.len() - 1)) + seq![','] + json_of_entry(
            entries[entries.len() - 1],
        )
    }
}

/// The JSON of one map entry: quoted key, colon, value.
pub open spec fn json_of_entry(e: (Seq<char>, SpecData)) -> Seq<char>
    decreases e,
{
    seq!['"'] + json_escape(e.0) + seq!['"'] + seq![':'] + json_of_data(e.1)
}

/// Relies on `String::push`: appends the given character to the end of
/// the string.
#[verifier::external_body]
fn push_char(s: &mut String, c: char)
    ensures
        final(s)@ == old(s)@.push(c),
{
    s.push(c);
}

/// Appends the JSON escape of one character to `out`.
fn push_escaped_char(out: &mut String, c: char)
    ensures
        final(out)@ == old(out)@ + json_escape_char(c),
{
    if c == '"' {
        out.append("\\\"");
        proof {
            reveal_strlit("\\\"");
        }
    } else if c == '\\' {
        out.append("\\\\");
        proof {
            reveal_strlit("\\\\");
        }
    } else if c == '\n' {
        out.append("\\n");
        proof {
            reveal_strlit("\\n");
        }
    } else if c == '\r' {
        out.append("\\r");
        proof {
            reveal_strlit("\\r");
        }
    } else if c == '\t' {
        out.append("\\t");
        proof {
            reveal_strlit("\\t");
        }
    } else if (c as u32) < 32 {
        out.append("\\u00");
        proof {
            reveal_strlit("\\u00");
        }
        let code: u32 = c as u32;
        push_hex_digit(out, code / 16);
        push_hex_digit(out, code % 16);
    } else {
        push_char(out, c);
    }
    proof {
        assert(final(out)@ =~= old(out)@ + json_escape_char(c));
    }
}

/// Appends the single hexadecimal digit `d` to `out`.
fn push_hex_digit(out: &mut String, d: u32)
    requires
        d < 16,
    ensures
        final(out)@ == old(out)@ + seq![hex_digit(d as int)],
{
    proof {
        reveal_strlit("a");
        reveal_strlit("b");
        reveal_strlit("c");
        reveal_strlit("d");
        reveal_strlit("e");
        reveal_strlit("f");
        reveal_strlit("0");
        reveal_strlit("1");
        reveal_strlit("2");
        reveal_strlit("3");
        reveal_strlit("4");
        reveal_strlit("5");
        reveal_strlit("6");
        reveal_strlit("7");
        reveal_strlit("8");
        reveal_strlit("9");
    }
    if d == 0 {
        out.append("0");
    } else if d == 1 {
        out.append("1");
    } else if d == 2 {
        out.append("2");
    } else if d == 3 {
        out.append("3");
    } else if d == 4 {
        out.append("4");
    } else if d == 5 {
        out.append("5");
    } else if d == 6 {
        out.append("6");
    } else if d == 7 {
        out.append("7");
    } else if d == 8 {
        out.append("8");
    } else if d == 9 {
        out.append("9");
    } else if d == 10 {
        out.append("a");
    } else if d == 11 {
        out.append("b");
    } else if d == 12 {
        out.append("c");
    } else if d == 13 {
        out.append("d");
    } else if d == 14 {
        out.append("e");
    } else {
        out.append("f");
    }
    proof {
        assert(final(out)@ =~= old(out)@ + seq![hex_digit(d as int)]);
    }
}

/// Appends the JSON escape of a text to `out`.
fn push_escaped(out: &mut String, s: &str)
    ensures
        final(out)@ == old(out)@ + json_escape(s@),
{
    let n: usize = s.unicode_len();
    let mut i: usize = 0;
    while i < n
        invariant
            i <= n,
            n == s@.len(),
            out@ == old(out)@ + json_escape(s@.subrange(0, i as int)),
        decreases n - i,
    {
        let c = s.get_char(i);
        push_escaped_char(out, c);
        proof {
            assert(s@.subrange(0, i + 1 as int).subrange(0, i as int) =~= s@.subrange(
                0,
                i as int,
            ));
            assert(s@.subrange(0, i + 1 as int)[i as int] == s@[i as int]);
            assert(out@ =~= old(out)@ + json_escape(s@.subrange(0, i + 1 as int)));
        }
        i = i + 1;
    }
    proof {
        assert(s@.subrange(0, n as int) =~= s@);
    }
}

/// Appends the JSON document of `d` to `out`.
fn push_json(out: &mut String, d: &DataValue)
    ensures
        final(out)@ == old(out)@ + json_of_data(d@),
    decreases *d,
{
    match d {
        DataValue::Text(s) => {
            push_char(out, '"');
            push_escaped(out, s.as_str());
            push_char(out, '"');
            proof {
                assert(final(out)@ =~= old(out)@ + json_of_data(d@));
            }
        },
        DataValue::List(items) => {
            let ghost sd = spec_data_list(items@);
            proof {
                lemma_spec_data_list(items@);
            }
            push_char(out, '[');
            let mut i: usize = 0;
            while i < items.len()
                invariant
                    *d == DataValue::List(*items),
                    i <= items@.len(),
                    sd == spec_data_list(items@),
                    sd.len() == items@.len(),
                    forall|j: int| 0 <= j < items@.len() ==> sd[j] == spec_data(items@[j]),
                    out@ == old(out)@ + seq!['['] + json_of_list(sd.subrange(0, i as int)),
                decreases items@.len() - i,
            {
                proof {
                    assert(decreases_to!(*d => (*d)->List_0));
                    assert(decreases_to!(*items => items@));
                    assert(decreases_to!(items@ => items@[i as int]));
                    assert(decreases_to!(*d => items@[i as int]));
                }
                if i > 0 {
                    push_char(out, ',');
                }
                push_json(out, &items[i]);
                proof {
                    assert(sd.subrange(0, i + 1 as int).subrange(0, i as int) =~= sd.subrange(
                        0,
                        i as int,
                    ));
                    assert(sd.subrange(0, i + 1 as int)[i as int] == sd[i as int]);
                    assert(out@ =~= old(out)@ + seq!['['] + json_of_list(
                        sd.subrange(0, i + 1 as int),
                    ));
                }
                i = i + 1;
            }
            push_char(out, ']');
            proof {
                assert(sd.subrange(0, sd.len() as int) =~= sd);
                assert(final(out)@ =~= old(out)@ + json_of_data(d@));
            }
        },
        DataValue::Object(entries) => {
            let ghost sd = spec_data_map(entries@);
            proof {
                lemma_spec_data_map(entries@);
            }
            push_char(out, '{');
            let mut i: usize = 0;
            while i < entries.len()
                invariant
                    *d == DataValue::Object(*entries),
                    i <= entries@.len(),
                    sd == spec_data_map(entries@),
                    sd.len() == entries@.len(),
                    forall|j: int| 0 <= j < entries@.len() ==> sd[j] == (
                    entries@[j].0@,
                    spec_data(entries@[j].1),
                    ),
                    out@ == old(out)@ + seq!['{'] + json_of_map(sd.subrange(0, i as int)),
                decreases entries@.len() - i,
            {
                proof {
                    assert(decreases_to!(*d => (*d)->Object_0));
                    assert(decreases_to!(*entries => entries@));
                    assert(decreases_to!(entries@ => entries@[i as int]));
                    assert(decreases_to!(entries@[i as int] => entries@[i as int].1));
                    assert(decreases_to!(*d => entries@[i as int].1));
                }
                if i > 0 {
                    push_char(out, ',');
                }
                push_char(out, '"');
                push_escaped(out, entries[i].0.as_str());
                push_char(out, '"');
                push_char(out, ':');
                push_json(out, &entries[i].1);
                proof {
                    assert(sd.subrange(0, i + 1 as int).subrange(0, i as int) =~= sd.subrange(
                        0,
                        i as int,
                    ));
                    assert(sd.subrange(0, i + 1 as int)[i as int] == sd[i as int]);
                    assert(sd[i as int].0 == entries@[i as int].0@);
                    assert(sd[i as int].1 == spec_data(entries@[i as int].1));
                    assert(json_of_entry(sd[i as int]) == seq!['"'] + json_escape(
                        entries@[i as int].0@,
                    ) + seq!['"'] + seq![':'] + json_of_data(spec_data(entries@[i as int].1)));
                    assert(out@ =~= old(out)@ + seq!['{'] + json_of_map(
                        sd.subrange(0, i + 1 as int),
                    ));
                }
                i = i + 1;
            }
            push_char(out, '}');
            proof {
                assert(sd.subrange(0, sd.len() as int) =~= sd);
                assert(final(out)@ =~= old(out)@ + json_of_data(d@));
            }
        },
    }
}

/// Renders a generic-data value as a JSON document: quoted escaped
/// texts, bracketed lists, braced maps, no added spacing.
pub fn data_to_json(d: &DataValue) -> (r: String)
    ensures
        r@ == json_of_data(d@),
{
    let mut r = String::new();
    push_json(&mut r, d);
    proof {
        assert(r@ =~= json_of_data(d@));
    }
    r
}

} // verus!
