//! Writing a document as text.
//!
//! Each pair is written on a line of its own, in the order of the
//! document: `@name` for a section, `key: value` for the rest. A string is
//! written behind a `'`, each of its lines on a line of the text. An array
//! without strings is written on one line, `[1, 2, 3]`; an array that holds
//! a string is written with one `#` line for each element.
use vstd::prelude::*;
use vstd::string::*;
use crate::cfua::{lemma_array_view, values_of, Cfua, CfuaType, Entry, Value};
use crate::text::{push_char, push_chars};
use crate::token::{is_plain, render_scalar, token_of_scalar};

verus! {

/// The characters of a string as its lines stand in the text: behind
/// each newline a `'`, which opens the next line of the string.
pub open spec fn lined(s: Seq<char>) -> Seq<char>
    decreases s.len(),
{
    if s.len() == 0 {
        Seq::empty()
    } else if s.last() == '\n' {
        lined(s.drop_last()).push('\n').push('\'')
    } else {
        lined(s.drop_last()).push(s.last())
    }
}

/// The text of a string: a `'`, then the lines of the string, each behind
/// a `'` of its own.
pub open spec fn quoted(s: Seq<char>) -> Seq<char> {
    seq!['\''] + lined(s)
}

/// `value` may stand in an array: it is neither an array nor a section.
pub open spec fn is_element(value: Value) -> bool {
    value is Text || is_plain(value)
}

/// The text of an element of an array.
pub open spec fn element_text(value: Value) -> Seq<char> {
    match value {
        Value::Text(s) => quoted(s),
        _ => token_of_scalar(value),
    }
}

/// One of `items` is a string.
pub open spec fn has_text(items: Seq<Value>) -> bool {
    exists|i: int| 0 <= i < items.len() && #[trigger] items[i] is Text
}

/// The elements of an array, separated by `, `.
pub open spec fn comma_items(items: Seq<Value>) -> Seq<char>
    decreases items.len(),
{
    if items.len() == 0 {
        Seq::empty()
    } else if items.len() == 1 {
        element_text(items[0])
    } else {
        comma_items(items.drop_last()) + seq![',', ' '] + element_text(items.last())
    }
}

/// The elements of an array, each on lines of its own behind a `#`.
pub open spec fn hash_items(items: Seq<Value>) -> Seq<char>
    decreases items.len(),
{
    if items.len() == 0 {
        Seq::empty()
    } else {
        hash_items(items.drop_last()) + seq!['#'] + element_text(items.last()) + seq!['\n']
    }
}

/// The text of an array.
pub open spec fn array_text(items: Seq<Value>) -> Seq<char> {
    if has_text(items) {
        seq!['[', '\n'] + hash_items(items) + seq![']']
    } else {
        seq!['['] + comma_items(items) + seq![']']
    }
}

/// The text of a value behind its key.
pub open spec fn value_text(value: Value) -> Seq<char> {
    match value {
        Value::Text(s) => quoted(s),
        Value::Array(items) => array_text(items),
        _ => token_of_scalar(value),
    }
}

/// The text of a pair: its lines, the last newline included.
pub open spec fn entry_text(entry: Entry) -> Seq<char> {
    match entry.1 {
        Value::Section => seq!['@'] + entry.0 + seq!['\n'],
        _ => entry.0 + seq![':', ' '] + value_text(entry.1) + seq!['\n'],
    }
}

/// The text of a document: the texts of its pairs, in order.
pub open spec fn document_text(entries: Seq<Entry>) -> Seq<char>
    decreases entries.len(),
{
    if entries.len() == 0 {
        Seq::empty()
    } else {
        document_text(entries.drop_last()) + entry_text(entries.last())
    }
}

/// Every element of every array of `entries` may stand in an array.
pub open spec fn is_flat(entries: Seq<Entry>) -> bool {
    forall|i: int, j: int|
        0 <= i < entries.len() && entries[i].1 is Array && 0 <= j < entries[i].1->Array_0.len()
            ==> is_element(#[trigger] entries[i].1->Array_0[j])
}

/// Whether every element of `items` may stand in an array.
fn check_elements(items: &Vec<CfuaType>) -> (r: bool)
    ensures
        r == forall|j: int| 0 <= j < items@.len() ==> is_element(#[trigger] values_of(items@)[j]),
{
    let mut j: usize = 0;
    while j < items.len()
        invariant
            j <= items.len(),
            forall|k: int| 0 <= k < j ==> is_element(#[trigger] values_of(items@)[k]),
        decreases items.len() - j,
    {
        match &items[j] {
            CfuaType::Array(_) => {
                assert(!is_element(values_of(items@)[j as int]));
                return false;
            },
            CfuaType::Section(_) => {
                return false;
            },
            _ => {},
        }
        j += 1;
    }
    true
}

/// Appends the text of the string `s` to `out`.
fn write_quoted(out: &mut String, s: &str)
    ensures
        final(out)@ == old(out)@ + quoted(s@),
{
    push_char(out, '\'');
    for c in it: s.chars()
        invariant
            it.seq() == s@,
            0 <= it.index() <= s@.len(),
            out@ == old(out)@ + seq!['\''] + lined(s@.subrange(0, it.index() as int)),
    {
        let ghost seen = s@.subrange(0, it.index() as int);
        let ghost more = s@.subrange(0, it.index() + 1);
        assert(more.drop_last() =~= seen);
        push_char(out, c);
        if c == '\n' {
            push_char(out, '\'');
        }
    }
    assert(s@.subrange(0, s@.len() as int) =~= s@);
}

/// Appends the text of an element of an array to `out`.
fn write_element(out: &mut String, value: &CfuaType)
    requires
        is_element(value@),
    ensures
        final(out)@ == old(out)@ + element_text(value@),
{
    match value {
        CfuaType::String(s) => write_quoted(out, s.as_str()),
        _ => {
            let token = render_scalar(value);
            push_chars(out, &token);
        },
    }
}

/// Whether one of `items` is a string.
fn any_string(items: &Vec<CfuaType>) -> (r: bool)
    ensures
        r == has_text(values_of(items@)),
{
    let mut j: usize = 0;
    while j < items.len()
        invariant
            j <= items.len(),
            forall|k: int| 0 <= k < j ==> !(#[trigger] values_of(items@)[k] is Text),
        decreases items.len() - j,
    {
        if let CfuaType::String(_) = &items[j] {
            assert(values_of(items@)[j as int] is Text);
            return true;
        }
        j += 1;
    }
    false
}

/// Appends the text of the array of `items` to `out`.
fn write_items(out: &mut String, items: &Vec<CfuaType>)
    requires
        forall|j: int| 0 <= j < items@.len() ==> is_element(#[trigger] values_of(items@)[j]),
    ensures
        final(out)@ == old(out)@ + array_text(values_of(items@)),
{
    let ghost models = values_of(items@);
    push_char(out, '[');
    if any_string(items) {
        push_char(out, '\n');
        let mut j: usize = 0;
        while j < items.len()
            invariant
                j <= items.len(),
                models == values_of(items@),
                forall|k: int| 0 <= k < items@.len() ==> is_element(#[trigger] models[k]),
                out@ == old(out)@ + seq!['[', '\n'] + hash_items(models.subrange(0, j as int)),
            decreases items.len() - j,
        {
            let ghost seen = models.subrange(0, j as int);
            let ghost more = models.subrange(0, j + 1);
            assert(more.drop_last() =~= seen);
            assert(more.last() == models[j as int]);
            push_char(out, '#');
            write_element(out, &items[j]);
            push_char(out, '\n');
            j += 1;
        }
        assert(models.subrange(0, items@.len() as int) =~= models);
        push_char(out, ']');
    } else {
        let mut j: usize = 0;
        while j < items.len()
            invariant
                j <= items.len(),
                models == values_of(items@),
                forall|k: int| 0 <= k < items@.len() ==> is_element(#[trigger] models[k]),
                out@ == old(out)@ + seq!['['] + comma_items(models.subrange(0, j as int)),
            decreases items.len() - j,
        {
            let ghost seen = models.subrange(0, j as int);
            let ghost more = models.subrange(0, j + 1);
            assert(more.drop_last() =~= seen);
            assert(more.last() == models[j as int]);
            if j > 0 {
                push_char(out, ',');
                push_char(out, ' ');
            }
            write_element(out, &items[j]);
            j += 1;
        }
        assert(models.subrange(0, items@.len() as int) =~= models);
        push_char(out, ']');
    }
}

/// Appends the text of the pair `(key, value)` to `out`.
fn write_entry(out: &mut String, key: &str, value: &CfuaType)
    requires
        value@ matches Value::Array(items) ==> forall|j: int|
            0 <= j < items.len() ==> is_element(#[trigger] items[j]),
    ensures
        final(out)@ == old(out)@ + entry_text((key@, value@)),
{
    match value {
        CfuaType::Section(_) => {
            push_char(out, '@');
            out.append(key);
            push_char(out, '\n');
        },
        _ => {
            out.append(key);
            push_char(out, ':');
            push_char(out, ' ');
            match value {
                CfuaType::String(s) => write_quoted(out, s.as_str()),
                CfuaType::Array(items) => {
                    proof {
                        lemma_array_view(*items);
                    }
                    write_items(out, items);
                },
                _ => {
                    let token = render_scalar(value);
                    push_chars(out, &token);
                },
            }
            push_char(out, '\n');
        },
    }
}

impl Cfua {
    /// Whether this document can be written: whether none of its arrays
    /// holds an array or a section.
    pub fn can_write(&self) -> (r: bool)
        ensures
            r == is_flat(self@),
    {
        let mut i: usize = 0;
        while i < self.len()
            invariant
                i <= self@.len(),
                forall|k: int, j: int|
                    0 <= k < i && self@[k].1 is Array && 0 <= j < self@[k].1->Array_0.len()
                        ==> is_element(#[trigger] self@[k].1->Array_0[j]),
            decreases self@.len() - i,
        {
            if let CfuaType::Array(items) = self.value_at(i) {
                proof {
                    lemma_array_view(*items);
                }
                if !check_elements(items) {
                    proof {
                        let j = choose|j: int|
                            0 <= j < items@.len() && !is_element(#[trigger] values_of(items@)[j]);
                        assert(!is_element(self@[i as int].1->Array_0[j]));
                    }
                    return false;
                }
            }
            i += 1;
        }
        true
    }

    /// Writes this document as text.
    ///
    /// The arrays of the document hold integers, floats, booleans and
    /// strings only: the text format has no way to write an array or a
    /// section inside an array.
    pub fn to_string(&self) -> (r: String)
        requires
            is_flat(self@),
        ensures
            r@ == document_text(self@),
    {
        let mut out = String::new();
        let mut i: usize = 0;
        while i < self.len()
            invariant
                i <= self@.len(),
                is_flat(self@),
                out@ == document_text(self@.subrange(0, i as int)),
            decreases self@.len() - i,
        {
            let ghost seen = self@.subrange(0, i as int);
            let ghost more = self@.subrange(0, i + 1);
            assert(more.drop_last() =~= seen);
            write_entry(&mut out, self.key_at(i).as_str(), self.value_at(i));
            i += 1;
        }
        assert(self@.subrange(0, self@.len() as int) =~= self@);
        out
    }
}

} // verus!
