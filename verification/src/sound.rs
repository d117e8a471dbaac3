//! What holds of every document that the scanner reads, and of every error
//! that it reports.
use vstd::prelude::*;
use crate::cfua::{Entry, Value};
use crate::error::Failure;
use crate::parser::{
    commit_item, commit_scalar, initial, parse_text, scan, settled, step, Machine, State,
};
use crate::token::scalar_of_token;
use crate::valid::{is_name, is_valid_document, is_valid_element, is_valid_entry};

verus! {

/// What holds of the scanner at every step: its pairs and the elements of
/// its array are of the format, the key that it holds is a name wherever a
/// value is to follow it, and no string is open inside a section's name.
pub open spec fn is_sound(m: Machine) -> bool {
    &&& is_valid_document(m.entries)
    &&& forall|j: int| 0 <= j < m.items.len() ==> is_valid_element(#[trigger] m.items[j])
    &&& match m.mode {
        State::Reading | State::Comment => m.value.len() > 0 ==> is_name(m.key),
        State::SectionName => m.value.len() == 0 && (m.key.len() == 0 || is_name(m.key)),
        _ => is_name(m.key),
    }
}

/// A document of the format with one more pair of the format is a
/// document of the format.
pub proof fn lemma_valid_push(entries: Seq<Entry>, e: Entry)
    requires
        is_valid_document(entries),
        is_valid_entry(e),
    ensures
        is_valid_document(entries.push(e)),
{
    let more = entries.push(e);
    assert forall|i: int| 0 <= i < more.len() implies is_valid_entry(#[trigger] more[i]) by {
        if i < entries.len() {
            assert(more[i] == entries[i]);
        }
    }
}

/// A name with one more letter, or with a hyphen behind two characters or
/// more, is a name.
pub proof fn lemma_name_push(k: Seq<char>, c: char)
    requires
        k.len() == 0 || is_name(k),
        crate::parser::is_lower(c) || (c == '-' && k.len() >= 2),
    ensures
        is_name(k.push(c)),
{
    let more = k.push(c);
    assert forall|i: int| 2 <= i < more.len() implies crate::parser::is_lower(#[trigger] more[i])
        || more[i] == '-' by {
        if i < k.len() {
            assert(more[i] == k[i]);
        }
    }
    if k.len() > 0 {
        assert(more[0] == k[0]);
    }
    if k.len() > 1 {
        assert(more[1] == k[1]);
    }
}

/// The pairs of a sound scanner at the start of a line are of the format,
/// the string that is still open included.
pub proof fn lemma_settled_valid(m: Machine)
    requires
        is_sound(m),
        m.mode == State::Reading || m.mode == State::Comment,
    ensures
        is_valid_document(settled(m)),
{
    if m.value.len() > 0 {
        lemma_valid_push(m.entries, (m.key, Value::Text(m.value.skip(1))));
    }
}

/// A sound scanner is still sound when the element that it has buffered
/// has joined its array.
pub proof fn lemma_commit_item_sound(m: Machine)
    requires
        is_sound(m),
        commit_item(m) is Ok,
    ensures
        is_sound(commit_item(m)->Ok_0),
{
    let n = commit_item(m)->Ok_0;
    assert forall|j: int| 0 <= j < n.items.len() implies is_valid_element(#[trigger] n.items[j]) by {
        if j < m.items.len() {
            assert(n.items[j] == m.items[j]);
        }
    }
}

/// A sound scanner is still sound when its array has become the value of
/// its key.
pub proof fn lemma_close_array_sound(m: Machine)
    requires
        is_sound(m),
        is_name(m.key),
    ensures
        is_sound(crate::parser::close_array(m)),
{
    lemma_valid_push(m.entries, (m.key, Value::Array(m.items)));
}

/// A step keeps the scanner sound.
pub proof fn lemma_step_sound(m: Machine, c: char)
    requires
        is_sound(m),
        step(m, c) is Ok,
    ensures
        is_sound(step(m, c)->Ok_0),
{
    let n = step(m, c)->Ok_0;
    match m.mode {
        State::Reading => {
            lemma_settled_valid(m);
            if crate::parser::is_lower(c) {
                lemma_name_push(Seq::empty(), c);
            }
        },
        State::Key => {
            if c != ':' && c != ' ' {
                lemma_name_push(m.key, c);
            }
        },
        State::Separator | State::Value => {
            if commit_scalar(m) is Ok && n == commit_scalar(m)->Ok_0 {
                lemma_valid_push(m.entries, (m.key, scalar_of_token(m.value)->Some_0));
            }
        },
        State::SectionName => {
            if c == '\n' {
                lemma_valid_push(m.entries, (m.key, Value::Section));
            } else {
                lemma_name_push(m.key, c);
            }
        },
        State::Comment => {},
        State::ArraySimple | State::ArrayElement { .. } => {
            if commit_item(m) is Ok {
                lemma_commit_item_sound(m);
                lemma_close_array_sound(commit_item(m)->Ok_0);
            }
            lemma_close_array_sound(m);
        },
    }
}

/// A scan keeps the scanner sound.
pub proof fn lemma_scan_sound(m: Machine, text: Seq<char>)
    requires
        is_sound(m),
        scan(m, text) is Ok,
    ensures
        is_sound(scan(m, text)->Ok_0),
    decreases text.len(),
{
    if text.len() > 0 {
        lemma_step_sound(m, text[0]);
        lemma_scan_sound(step(m, text[0])->Ok_0, text.skip(1));
    }
}

/// Every document that is read is a document of the format: its keys are
/// names, with letters in the first two places, and its arrays hold
/// strings, integers, booleans and floats only.
pub proof fn lemma_parsed_is_valid(text: Seq<char>)
    ensures
        parse_text(text) matches Ok(entries) ==> is_valid_document(entries),
{
    if scan(initial(), text) is Ok {
        lemma_scan_sound(initial(), text);
        let m = scan(initial(), text)->Ok_0;
        match m.mode {
            State::Reading | State::Comment => {
                lemma_settled_valid(m);
            },
            State::Value | State::SectionName => {
                if step(m, '\n') is Ok {
                    lemma_step_sound(m, '\n');
                    lemma_settled_valid(step(m, '\n')->Ok_0);
                }
            },
            _ => {},
        }
    }
}

/// `e` is an error that scanning can report. The three other errors are
/// never reported: a string may stand in any array, the elements of an
/// array may be of more than one type, and the scanner reads no file.
pub open spec fn is_scanning_error(e: Failure) -> bool {
    !(e is MixedArrayType) && !(e is StringInSimpleArray) && !(e is IoError)
}

/// The error of a scan is one that scanning can report.
pub proof fn lemma_scan_error(m: Machine, text: Seq<char>)
    ensures
        scan(m, text) matches Err(e) ==> is_scanning_error(e),
    decreases text.len(),
{
    if text.len() > 0 {
        match step(m, text[0]) {
            Ok(n) => lemma_scan_error(n, text.skip(1)),
            Err(_) => {},
        }
    }
}

/// The error of reading a text is one that scanning can report.
pub proof fn lemma_parse_error(text: Seq<char>)
    ensures
        parse_text(text) matches Err(e) ==> is_scanning_error(e),
{
    lemma_scan_error(initial(), text);
}

} // verus!
