//! The laws of the format: what holds of reading and writing together.
use vstd::prelude::*;
use crate::cfua::Entry;
use crate::error::Failure;
use crate::parser::{initial, parse_from, parse_text, scan, step, Machine, State};
use crate::round_trip::{lemma_round_trip, lemma_scan_concat, lemma_scan_one};
use crate::sound::lemma_parsed_is_valid;
use crate::valid::{is_valid_document, is_valid_entry};
use crate::write::document_text;

verus! {

/// The text of a document is read as that document exactly where the
/// document is one of the format: where its keys are names and its values
/// are such as the format has.
pub proof fn lemma_round_trip_exact(entries: Seq<Entry>)
    ensures
        parse_text(document_text(entries)) == Ok::<Seq<Entry>, Failure>(entries)
            <==> is_valid_document(entries),
{
    if is_valid_document(entries) {
        lemma_round_trip(entries);
    }
    lemma_parsed_is_valid(document_text(entries));
}

/// What is read from a text can be written and read again: the text of
/// the document that a text is read as is read as that same document.
pub proof fn lemma_read_write_read(text: Seq<char>)
    requires
        parse_text(text) is Ok,
    ensures
        parse_text(document_text(parse_text(text)->Ok_0)) == parse_text(text),
{
    lemma_parsed_is_valid(text);
    lemma_round_trip(parse_text(text)->Ok_0);
}

/// Two documents of the format that are written as the same text are the
/// same document.
pub proof fn lemma_text_determines_document(a: Seq<Entry>, b: Seq<Entry>)
    requires
        is_valid_document(a),
        is_valid_document(b),
        document_text(a) == document_text(b),
    ensures
        a == b,
{
    lemma_round_trip(a);
    lemma_round_trip(b);
}

/// The pairs of a document after the pairs of `more` have been appended to
/// `entries`, one by one.
pub open spec fn appended(entries: Seq<Entry>, more: Seq<Entry>) -> Seq<Entry>
    decreases more.len(),
{
    if more.len() == 0 {
        entries
    } else {
        appended(entries.push(more[0]), more.skip(1))
    }
}

/// A document keeps the order in which its pairs were appended: the pairs
/// of a document are those that it had, then those that were appended, in
/// the order of the appending, whether or not a key occurs more than once.
pub proof fn lemma_appended_in_order(entries: Seq<Entry>, more: Seq<Entry>)
    ensures
        appended(entries, more) == entries + more,
        appended(Seq::empty(), more) == more,
    decreases more.len(),
{
    if more.len() > 0 {
        lemma_appended_in_order(entries.push(more[0]), more.skip(1));
        lemma_appended_in_order(Seq::empty().push(more[0]), more.skip(1));
        assert(entries.push(more[0]) + more.skip(1) =~= entries + more);
        assert(Seq::<Entry>::empty().push(more[0]) + more.skip(1) =~= more);
    } else {
        assert(entries + more =~= entries);
    }
}

/// The first error ends the scan: where a text holds an error, whatever
/// follows the text leaves the error as it is.
pub proof fn lemma_first_error_is_reported(text: Seq<char>, more: Seq<char>)
    requires
        scan(initial(), text) is Err,
    ensures
        parse_text(text + more) == Err::<Seq<Entry>, Failure>(scan(initial(), text)->Err_0),
{
    lemma_scan_concat(initial(), text, more);
}

/// Inside a comment every character but the newline is skipped.
pub proof fn lemma_scan_comment(m: Machine, comment: Seq<char>)
    requires
        m.mode == State::Comment,
        forall|i: int| 0 <= i < comment.len() ==> comment[i] != '\n',
    ensures
        scan(m, comment) == Ok::<Machine, Failure>(m),
    decreases comment.len(),
{
    if comment.len() > 0 {
        assert forall|i: int| 0 <= i < comment.skip(1).len() implies comment.skip(1)[i]
            != '\n' by {
            assert(comment.skip(1)[i] == comment[i + 1]);
        }
        lemma_scan_comment(m, comment.skip(1));
    }
}

/// A comment changes nothing: a `%` at the start of a line, with all that
/// follows it up to the end of the line, may be left out.
pub proof fn lemma_comment_is_skipped(m: Machine, comment: Seq<char>, more: Seq<char>)
    requires
        m.mode == State::Reading,
        forall|i: int| 0 <= i < comment.len() ==> comment[i] != '\n',
    ensures
        parse_from(m, seq!['%'] + comment + seq!['\n'] + more) == parse_from(m, more),
{
    let inside = Machine { mode: State::Comment, ..m };
    lemma_scan_one(m, '%');
    lemma_scan_comment(inside, comment);
    lemma_scan_concat(m, seq!['%'], comment);
    lemma_scan_one(inside, '\n');
    lemma_scan_concat(m, seq!['%'] + comment, seq!['\n']);
    lemma_scan_concat(m, seq!['%'] + comment + seq!['\n'], more);
}

/// A blank line changes nothing.
pub proof fn lemma_blank_line_is_skipped(m: Machine, more: Seq<char>)
    requires
        m.mode == State::Reading,
    ensures
        parse_from(m, seq!['\n'] + more) == parse_from(m, more),
{
    lemma_scan_one(m, '\n');
    lemma_scan_concat(m, seq!['\n'], more);
}

/// A hyphen among the first two characters of a key, or of a section's
/// name, is the error of its kind, whatever else the scanner holds.
pub proof fn lemma_leading_hyphen(m: Machine)
    requires
        m.key.len() < 2,
    ensures
        m.mode == State::Key ==> step(m, '-') == Err::<Machine, Failure>(
            Failure::InvalidHyphenInKey,
        ),
        m.mode == State::SectionName ==> step(m, '-') == Err::<Machine, Failure>(
            Failure::InvalidHyphenInSection,
        ),
{
}

/// No key of a document that is read begins with a hyphen.
pub proof fn lemma_no_key_begins_with_hyphen(text: Seq<char>, i: int)
    requires
        parse_text(text) is Ok,
        0 <= i < parse_text(text)->Ok_0.len(),
    ensures
        parse_text(text)->Ok_0[i].0.len() > 0,
        parse_text(text)->Ok_0[i].0[0] != '-',
{
    lemma_parsed_is_valid(text);
}

} // verus!
