//! Scanning the text of a document gives the document back.
use vstd::prelude::*;
use crate::cfua::{Entry, Value};
use crate::error::Failure;
use crate::parser::{
    commit_item, commit_scalar, initial, is_lower, parse_text, scan, settled, step, Machine, State,
};
use crate::token::{is_token_char, is_valid_plain, lemma_token_round_trip, token_of_scalar};
use crate::valid::{is_name, is_valid_document, is_valid_element, is_valid_entry, is_valid_value};
use crate::write::{
    array_text, comma_items, document_text, element_text, entry_text, has_text, hash_items, lined,
    quoted, value_text,
};

verus! {

/// Scanning two texts one behind the other is scanning the first and then,
/// from where that ended, the second.
pub proof fn lemma_scan_concat(m: Machine, a: Seq<char>, b: Seq<char>)
    ensures
        scan(m, a + b) == match scan(m, a) {
            Ok(n) => scan(n, b),
            Err(e) => Err(e),
        },
    decreases a.len(),
{
    if a.len() == 0 {
        assert(a + b =~= b);
    } else {
        assert((a + b)[0] == a[0]);
        assert((a + b).skip(1) =~= a.skip(1) + b);
        match step(m, a[0]) {
            Ok(n) => lemma_scan_concat(n, a.skip(1), b),
            Err(_) => {},
        }
    }
}

/// Scanning one character is one step.
pub proof fn lemma_scan_one(m: Machine, c: char)
    ensures
        scan(m, seq![c]) == step(m, c),
{
    let t = seq![c];
    assert(t.skip(1) =~= Seq::<char>::empty());
    match step(m, c) {
        Ok(n) => {
            assert(scan(n, t.skip(1)) == Ok::<Machine, Failure>(n));
        },
        Err(_) => {},
    }
}

/// Where scanning `a` from `m` ends in `n`, scanning `a` and then `c` is the
/// step of `c` from `n`.
pub proof fn lemma_scan_then(m: Machine, a: Seq<char>, n: Machine, c: char)
    requires
        scan(m, a) == Ok::<Machine, Failure>(n),
    ensures
        scan(m, a.push(c)) == step(n, c),
{
    lemma_scan_concat(m, a, seq![c]);
    lemma_scan_one(n, c);
    assert(a.push(c) =~= a + seq![c]);
}

/// The character at place `i` of `t` joins the buffer of the value, which
/// holds the characters before it.
pub open spec fn pushes_at(m: Machine, t: Seq<char>, i: int) -> bool {
    step(Machine { value: t.subrange(0, i), ..m }, t[i]) == Ok::<Machine, Failure>(
        Machine { value: t.subrange(0, i + 1), ..m },
    )
}

/// Where each character of `t` from place `j` on joins the buffer of the
/// value, scanning them leaves all of `t` in the buffer.
pub proof fn lemma_scan_pushes(m: Machine, t: Seq<char>, j: int)
    requires
        0 <= j <= t.len(),
        m.value == t.subrange(0, j),
        forall|i: int| j <= i < t.len() ==> pushes_at(m, t, i),
    ensures
        scan(m, t.skip(j)) == Ok::<Machine, Failure>(Machine { value: t, ..m }),
    decreases t.len() - j,
{
    if j == t.len() {
        assert(t.subrange(0, j) =~= t);
    } else {
        let tail = t.skip(j);
        assert(tail[0] == t[j]);
        assert(tail.skip(1) =~= t.skip(j + 1));
        assert(pushes_at(m, t, j));
        let n = Machine { value: t.subrange(0, j + 1), ..m };
        assert forall|i: int| j + 1 <= i < t.len() implies pushes_at(n, t, i) by {
            assert(pushes_at(m, t, i));
        }
        lemma_scan_pushes(n, t, j + 1);
    }
}

/// Inside a key or a section's name, the rest of a name joins the buffer.
pub proof fn lemma_scan_name(m: Machine, k: Seq<char>, j: int)
    requires
        is_name(k),
        0 <= j <= k.len(),
        m.key == k.subrange(0, j),
        m.mode == State::Key || m.mode == State::SectionName,
    ensures
        scan(m, k.skip(j)) == Ok::<Machine, Failure>(Machine { key: k, ..m }),
    decreases k.len() - j,
{
    if j == k.len() {
        assert(k.subrange(0, j) =~= k);
    } else {
        let tail = k.skip(j);
        assert(tail[0] == k[j]);
        assert(tail.skip(1) =~= k.skip(j + 1));
        let n = Machine { key: k.subrange(0, j + 1), ..m };
        assert(k.subrange(0, j).push(k[j]) =~= k.subrange(0, j + 1));
        assert(is_lower(k[j]) || (k[j] == '-' && j >= 2));
        assert(step(m, k[j]) == Ok::<Machine, Failure>(n));
        lemma_scan_name(n, k, j + 1);
    }
}

/// At the start of a line, a key with its `: ` leaves the scanner behind
/// the separator, with the string that was open completed.
pub proof fn lemma_scan_key(m: Machine, k: Seq<char>)
    requires
        m.mode == State::Reading,
        is_name(k),
    ensures
        scan(m, k + seq![':', ' ']) == Ok::<Machine, Failure>(
            Machine {
                mode: State::Separator,
                key: k,
                value: Seq::empty(),
                entries: settled(m),
                items: m.items,
            },
        ),
{
    let m1 = Machine {
        mode: State::Key,
        key: seq![k[0]],
        value: Seq::empty(),
        entries: settled(m),
        items: m.items,
    };
    assert(step(m, k[0]) == Ok::<Machine, Failure>(m1));
    assert(k.subrange(0, 1) =~= seq![k[0]]);
    lemma_scan_name(m1, k, 1);
    let m2 = Machine { key: k, ..m1 };
    // k[0], then the rest of k
    lemma_scan_one(m, k[0]);
    lemma_scan_concat(m, seq![k[0]], k.skip(1));
    assert(seq![k[0]] + k.skip(1) =~= k);
    assert(scan(m, k) == Ok::<Machine, Failure>(m2));
    let m3 = Machine { mode: State::Separator, ..m2 };
    lemma_scan_then(m, k, m2, ':');
    lemma_scan_then(m, k.push(':'), m3, ' ');
    assert(k.push(':').push(' ') =~= k + seq![':', ' ']);
}

/// Where the first character of `t` begins the buffer of the value and
/// each further one joins it, scanning `t` leaves all of `t` in the buffer.
pub proof fn lemma_scan_token(m: Machine, n: Machine, t: Seq<char>)
    requires
        t.len() > 0,
        step(m, t[0]) == Ok::<Machine, Failure>(n),
        n.value == seq![t[0]],
        forall|i: int| 1 <= i < t.len() ==> pushes_at(n, t, i),
    ensures
        scan(m, t) == Ok::<Machine, Failure>(Machine { value: t, ..n }),
{
    assert(t.subrange(0, 1) =~= seq![t[0]]);
    lemma_scan_pushes(n, t, 1);
    lemma_scan_one(m, t[0]);
    lemma_scan_concat(m, seq![t[0]], t.skip(1));
    assert(seq![t[0]] + t.skip(1) =~= t);
}

/// Behind the separator, the token of a value and the newline behind it
/// complete the pair of the key and that value.
pub proof fn lemma_scan_plain_value(m: Machine, v: Value)
    requires
        m.mode == State::Separator,
        m.value.len() == 0,
        is_valid_plain(v),
    ensures
        scan(m, token_of_scalar(v) + seq!['\n']) == Ok::<Machine, Failure>(
            Machine {
                mode: State::Reading,
                key: Seq::empty(),
                value: Seq::empty(),
                entries: m.entries.push((m.key, v)),
                items: m.items,
            },
        ),
{
    let t = token_of_scalar(v);
    lemma_token_round_trip(v);
    assert(is_token_char(t[0]));
    let n = Machine { mode: State::Value, value: seq![t[0]], ..m };
    assert(step(m, t[0]) == Ok::<Machine, Failure>(n));
    assert forall|i: int| 1 <= i < t.len() implies pushes_at(n, t, i) by {
        assert(is_token_char(t[i]));
        assert(t.subrange(0, i).push(t[i]) =~= t.subrange(0, i + 1));
    }
    lemma_scan_token(m, n, t);
    let full = Machine { value: t, ..n };
    lemma_scan_then(m, t, full, '\n');
    assert(t.push('\n') =~= t + seq!['\n']);
    assert(commit_scalar(full) == step(full, '\n'));
}

/// Inside a string value, the lines of a string join the buffer: its
/// characters, newlines included.
pub proof fn lemma_scan_lined(m: Machine, s: Seq<char>)
    requires
        m.mode == State::Value,
        m.value.len() > 0,
        m.value[0] == '\'',
    ensures
        scan(m, lined(s)) == Ok::<Machine, Failure>(
            Machine { value: m.value + s, ..m },
        ),
    decreases s.len(),
{
    if s.len() == 0 {
        assert(m.value + s =~= m.value);
    } else {
        let front = s.drop_last();
        let c = s.last();
        lemma_scan_lined(m, front);
        let mf = Machine { value: m.value + front, ..m };
        assert((m.value + front).push(c) =~= m.value + s);
        if c == '\n' {
            let mr = Machine { mode: State::Reading, ..mf };
            lemma_scan_then(m, lined(front), mf, '\n');
            assert(step(mf, '\n') == Ok::<Machine, Failure>(mr));
            lemma_scan_then(m, lined(front).push('\n'), mr, '\'');
        } else {
            lemma_scan_then(m, lined(front), mf, c);
        }
    }
}

/// Behind the separator, the text of a string and the newline behind it
/// leave the string open, at the start of a line.
pub proof fn lemma_scan_text_value(m: Machine, s: Seq<char>)
    requires
        m.mode == State::Separator,
        m.value.len() == 0,
    ensures
        scan(m, quoted(s) + seq!['\n']) == Ok::<Machine, Failure>(
            Machine { mode: State::Reading, value: seq!['\''] + s, ..m },
        ),
{
    let n = Machine { mode: State::Value, value: seq!['\''], ..m };
    assert(step(m, '\'') == Ok::<Machine, Failure>(n));
    lemma_scan_one(m, '\'');
    lemma_scan_lined(n, s);
    lemma_scan_concat(m, seq!['\''], lined(s));
    let full = Machine { value: seq!['\''] + s, ..n };
    assert(scan(m, quoted(s)) == Ok::<Machine, Failure>(full));
    lemma_scan_then(m, quoted(s), full, '\n');
    assert(quoted(s).push('\n') =~= quoted(s) + seq!['\n']);
}

/// Inside an array, in either style, the token of a value fills the buffer
/// of the element.
pub proof fn lemma_scan_item_token(m: Machine, v: Value)
    requires
        m.mode == State::ArraySimple || m.mode == (State::ArrayElement { pending_string: false }),
        m.value.len() == 0,
        is_valid_plain(v),
    ensures
        scan(m, token_of_scalar(v)) == Ok::<Machine, Failure>(
            Machine { value: token_of_scalar(v), ..m },
        ),
{
    let t = token_of_scalar(v);
    lemma_token_round_trip(v);
    assert(is_token_char(t[0]));
    let n = Machine { value: seq![t[0]], ..m };
    assert(step(m, t[0]) == Ok::<Machine, Failure>(n));
    assert forall|i: int| 1 <= i < t.len() implies pushes_at(n, t, i) by {
        assert(is_token_char(t[i]));
        assert(is_token_char(t[0]));
        assert(t.subrange(0, i)[0] == t[0]);
        assert(t.subrange(0, i).push(t[i]) =~= t.subrange(0, i + 1));
    }
    lemma_scan_token(m, n, t);
}

/// The buffered token of a value joins the elements of the array as that
/// value.
pub proof fn lemma_commit_token(m: Machine, v: Value)
    requires
        is_valid_plain(v),
        m.value == token_of_scalar(v),
    ensures
        commit_item(m) == Ok::<Machine, Failure>(
            Machine { value: Seq::empty(), items: m.items.push(v), ..m },
        ),
{
    lemma_token_round_trip(v);
    assert(is_token_char(m.value[0]));
}

/// Inside a comma-separated array that is still empty, the elements with
/// their commas leave the last element in the buffer and the others in the
/// array.
pub proof fn lemma_scan_comma_items(m: Machine, items: Seq<Value>)
    requires
        m.mode == State::ArraySimple,
        m.value.len() == 0,
        m.items.len() == 0,
        items.len() > 0,
        forall|j: int| 0 <= j < items.len() ==> is_valid_plain(#[trigger] items[j]),
    ensures
        scan(m, comma_items(items)) == Ok::<Machine, Failure>(
            Machine { value: token_of_scalar(items.last()), items: items.drop_last(), ..m },
        ),
    decreases items.len(),
{
    let last = items.last();
    let front = items.drop_last();
    assert(is_valid_plain(items[items.len() - 1]));
    if items.len() == 1 {
        lemma_scan_item_token(m, last);
        assert(front =~= m.items);
    } else {
        assert forall|j: int| 0 <= j < front.len() implies is_valid_plain(#[trigger] front[j]) by {
            assert(front[j] == items[j]);
        }
        lemma_scan_comma_items(m, front);
        let mf = Machine { value: token_of_scalar(front.last()), items: front.drop_last(), ..m };
        let mc = Machine { value: Seq::empty(), items: front, ..m };
        assert(is_valid_plain(front[front.len() - 1]));
        lemma_commit_token(mf, front.last());
        assert(front.drop_last().push(front.last()) =~= front);
        lemma_token_round_trip(front.last());
        assert(step(mf, ',') == Ok::<Machine, Failure>(mc));
        assert(step(mc, ' ') == Ok::<Machine, Failure>(mc));
        let a = comma_items(front);
        lemma_scan_then(m, a, mf, ',');
        lemma_scan_then(m, a.push(','), mc, ' ');
        assert(a.push(',').push(' ') =~= a + seq![',', ' ']);
        lemma_scan_item_token(mc, last);
        lemma_scan_concat(m, a + seq![',', ' '], token_of_scalar(last));
    }
}

/// The scanner behind the `[` of an array.
pub open spec fn opened(m: Machine) -> Machine {
    Machine { mode: State::ArraySimple, items: Seq::empty(), ..m }
}

/// The scanner behind an array that is complete, and behind the newline
/// that follows it.
pub open spec fn closed(m: Machine, items: Seq<Value>) -> Machine {
    Machine {
        mode: State::Reading,
        key: Seq::empty(),
        value: Seq::empty(),
        items: Seq::empty(),
        entries: m.entries.push((m.key, Value::Array(items))),
    }
}

/// Behind the separator, the text of an array without strings and the
/// newline behind it complete the pair of the key and the array.
pub proof fn lemma_scan_array_simple(m: Machine, items: Seq<Value>)
    requires
        m.mode == State::Separator,
        m.value.len() == 0,
        forall|j: int| 0 <= j < items.len() ==> is_valid_plain(#[trigger] items[j]),
    ensures
        scan(m, seq!['['] + comma_items(items) + seq![']'] + seq!['\n']) == Ok::<Machine, Failure>(closed(m, items)),
{
    let ma = opened(m);
    assert(m.value =~= Seq::<char>::empty());
    assert(step(m, '[') == Ok::<Machine, Failure>(ma));
    lemma_scan_one(m, '[');
    let body = comma_items(items);
    let done = closed(m, items);
    if items.len() == 0 {
        assert(items =~= ma.items);
        assert(step(ma, ']') == Ok::<Machine, Failure>(done));
        lemma_scan_then(m, seq!['['], ma, ']');
        assert(seq!['['].push(']') =~= seq!['['] + body + seq![']']);
    } else {
        lemma_scan_comma_items(ma, items);
        let ml = Machine { value: token_of_scalar(items.last()), items: items.drop_last(), ..ma };
        lemma_scan_concat(m, seq!['['], body);
        assert(is_valid_plain(items[items.len() - 1]));
        lemma_commit_token(ml, items.last());
        lemma_token_round_trip(items.last());
        assert(items.drop_last().push(items.last()) =~= items);
        assert(step(ml, ']') == Ok::<Machine, Failure>(done));
        lemma_scan_then(m, seq!['['] + body, ml, ']');
        assert((seq!['['] + body).push(']') =~= seq!['['] + body + seq![']']);
    }
    assert(step(done, '\n') == Ok::<Machine, Failure>(done));
    lemma_scan_then(m, seq!['['] + body + seq![']'], done, '\n');
    assert((seq!['['] + body + seq![']']).push('\n') =~= seq!['['] + body + seq![']'] + seq![
        '\n',
    ]);
}

/// Inside a string element, the lines of a string join the buffer: its
/// characters, newlines included.
pub proof fn lemma_scan_lined_element(m: Machine, s: Seq<char>)
    requires
        m.mode == (State::ArrayElement { pending_string: false }),
        m.value.len() > 0,
        m.value[0] == '\'',
    ensures
        scan(m, lined(s)) == Ok::<Machine, Failure>(
            Machine { value: m.value + s, ..m },
        ),
    decreases s.len(),
{
    if s.len() == 0 {
        assert(m.value + s =~= m.value);
    } else {
        let front = s.drop_last();
        let c = s.last();
        lemma_scan_lined_element(m, front);
        let mf = Machine { value: m.value + front, ..m };
        assert((m.value + front).push(c) =~= m.value + s);
        if c == '\n' {
            let mr = Machine { mode: State::ArrayElement { pending_string: true }, ..mf };
            lemma_scan_then(m, lined(front), mf, '\n');
            assert(step(mf, '\n') == Ok::<Machine, Failure>(mr));
            lemma_scan_then(m, lined(front).push('\n'), mr, '\'');
        } else {
            lemma_scan_then(m, lined(front), mf, c);
        }
    }
}

/// The scanner behind the `#` lines of `items`, from the scanner `m`
/// behind the `[`: a string that ends the lines is still open, since its
/// next line may continue it; any other element has joined the array.
pub open spec fn behind_hash_items(m: Machine, items: Seq<Value>) -> Machine {
    if items.len() == 0 {
        m
    } else {
        match items.last() {
            Value::Text(s) => Machine {
                mode: State::ArrayElement { pending_string: true },
                value: seq!['\''] + s,
                items: items.drop_last(),
                ..m
            },
            _ => Machine {
                mode: State::ArrayElement { pending_string: false },
                value: Seq::empty(),
                items: items,
                ..m
            },
        }
    }
}

/// Inside an array that is still empty, the `#` lines of the elements
/// leave the scanner as [`behind_hash_items`] says.
pub proof fn lemma_scan_hash_items(m: Machine, items: Seq<Value>)
    requires
        m.mode == State::ArraySimple,
        m.value.len() == 0,
        m.items.len() == 0,
        forall|j: int| 0 <= j < items.len() ==> is_valid_element(#[trigger] items[j]),
    ensures
        scan(m, hash_items(items)) == Ok::<Machine, Failure>(
            behind_hash_items(m, items),
        ),
    decreases items.len(),
{
    if items.len() > 0 {
        let last = items.last();
        let front = items.drop_last();
        assert(is_valid_element(items[items.len() - 1]));
        assert forall|j: int| 0 <= j < front.len() implies is_valid_element(
            #[trigger] front[j],
        ) by {
            assert(front[j] == items[j]);
        }
        lemma_scan_hash_items(m, front);
        let mf = behind_hash_items(m, front);
        let a = hash_items(front);
        // The `#` completes the element before it, if one is open.
        let mh = Machine {
            mode: State::ArrayElement { pending_string: false },
            value: Seq::empty(),
            items: front,
            ..m
        };
        assert(m.value =~= Seq::<char>::empty());
        if front.len() == 0 {
            assert(front =~= m.items);
        } else {
            assert(is_valid_element(front[front.len() - 1]));
            assert(front.drop_last().push(front.last()) =~= front);
            match front.last() {
                Value::Text(s0) => {
                    assert((seq!['\''] + s0).skip(1) =~= s0);
                },
                _ => {},
            }
        }
        assert(step(mf, '#') == Ok::<Machine, Failure>(mh));
        lemma_scan_then(m, a, mf, '#');
        let b = a + seq!['#'];
        assert(a.push('#') =~= b);
        let e = element_text(last);
        let end = behind_hash_items(m, items);
        match last {
            Value::Text(s) => {
                let mq = Machine { value: seq!['\''], ..mh };
                assert(step(mh, '\'') == Ok::<Machine, Failure>(mq));
                lemma_scan_then(m, b, mh, '\'');
                lemma_scan_lined_element(mq, s);
                let full = Machine { value: seq!['\''] + s, ..mq };
                lemma_scan_concat(m, b.push('\''), lined(s));
                assert(b.push('\'') + lined(s) =~= b + e);
                assert(step(full, '\n') == Ok::<Machine, Failure>(end));
                lemma_scan_then(m, b + e, full, '\n');
            },
            _ => {
                lemma_scan_item_token(mh, last);
                let full = Machine { value: token_of_scalar(last), ..mh };
                lemma_scan_concat(m, b, e);
                lemma_commit_token(full, last);
                lemma_token_round_trip(last);
                assert(is_token_char(e[0]));
                assert(front.push(last) =~= items);
                assert(step(full, '\n') == Ok::<Machine, Failure>(end));
                lemma_scan_then(m, b + e, full, '\n');
            },
        }
        assert((b + e).push('\n') =~= hash_items(items));
    }
}

/// Behind the separator, the text of an array that holds a string and the
/// newline behind it complete the pair of the key and the array.
pub proof fn lemma_scan_array_hash(m: Machine, items: Seq<Value>)
    requires
        m.mode == State::Separator,
        m.value.len() == 0,
        items.len() > 0,
        forall|j: int| 0 <= j < items.len() ==> is_valid_element(#[trigger] items[j]),
    ensures
        scan(m, seq!['[', '\n'] + hash_items(items) + seq![']'] + seq!['\n']) == Ok::<Machine, Failure>(closed(m, items)),
{
    let ma = opened(m);
    assert(m.value =~= Seq::<char>::empty());
    assert(step(m, '[') == Ok::<Machine, Failure>(ma));
    lemma_scan_one(m, '[');
    assert(step(ma, '\n') == Ok::<Machine, Failure>(ma));
    lemma_scan_then(m, seq!['['], ma, '\n');
    let head = seq!['[', '\n'];
    assert(seq!['['].push('\n') =~= head);
    let body = hash_items(items);
    lemma_scan_hash_items(ma, items);
    lemma_scan_concat(m, head, body);
    let ml = behind_hash_items(ma, items);
    let done = closed(m, items);
    assert(is_valid_element(items[items.len() - 1]));
    assert(items.drop_last().push(items.last()) =~= items);
    match items.last() {
        Value::Text(s) => {
            assert((seq!['\''] + s).skip(1) =~= s);
        },
        _ => {},
    }
    assert(step(ml, ']') == Ok::<Machine, Failure>(done));
    lemma_scan_then(m, head + body, ml, ']');
    assert((head + body).push(']') =~= head + body + seq![']']);
    assert(step(done, '\n') == Ok::<Machine, Failure>(done));
    lemma_scan_then(m, head + body + seq![']'], done, '\n');
    assert((head + body + seq![']']).push('\n') =~= head + body + seq![']'] + seq!['\n']);
}

/// Behind the separator, the text of a value and the newline behind it
/// leave the scanner at the start of a line, with the pair of the key and
/// the value as the last of its pairs: complete, or, for a string, open.
pub proof fn lemma_scan_value(m: Machine, v: Value)
    requires
        m.mode == State::Separator,
        m.value.len() == 0,
        is_valid_value(v),
        !(v is Section),
    ensures
        scan(m, value_text(v) + seq!['\n']) matches Ok(n) && n.mode == State::Reading && settled(n)
            == m.entries.push((m.key, v)),
{
    match v {
        Value::Text(s) => {
            lemma_scan_text_value(m, s);
            assert((seq!['\''] + s).skip(1) =~= s);
        },
        Value::Array(items) => {
            if has_text(items) {
                lemma_scan_array_hash(m, items);
                assert(array_text(items) + seq!['\n'] =~= seq!['[', '\n'] + hash_items(items)
                    + seq![']'] + seq!['\n']);
            } else {
                assert forall|j: int| 0 <= j < items.len() implies is_valid_plain(
                    #[trigger] items[j],
                ) by {
                    assert(is_valid_element(items[j]));
                    assert(!(items[j] is Text));
                }
                lemma_scan_array_simple(m, items);
                assert(array_text(items) + seq!['\n'] =~= seq!['['] + comma_items(items) + seq![
                    ']',
                ] + seq!['\n']);
            }
        },
        _ => {
            lemma_scan_plain_value(m, v);
        },
    }
}

/// At the start of a line, the text of a pair leaves the scanner at the
/// start of a line, with the pair behind the pairs that it had.
pub proof fn lemma_scan_entry(m: Machine, e: Entry)
    requires
        m.mode == State::Reading,
        is_valid_entry(e),
    ensures
        scan(m, entry_text(e)) matches Ok(n) && n.mode == State::Reading && settled(n) == settled(
            m,
        ).push(e),
{
    let k = e.0;
    match e.1 {
        Value::Section => {
            let m1 = Machine {
                mode: State::SectionName,
                key: Seq::empty(),
                value: Seq::empty(),
                entries: settled(m),
                ..m
            };
            assert(step(m, '@') == Ok::<Machine, Failure>(m1));
            lemma_scan_one(m, '@');
            assert(k.subrange(0, 0) =~= m1.key);
            assert(k.skip(0) =~= k);
            lemma_scan_name(m1, k, 0);
            lemma_scan_concat(m, seq!['@'], k);
            let m2 = Machine { key: k, ..m1 };
            lemma_scan_then(m, seq!['@'] + k, m2, '\n');
            assert((seq!['@'] + k).push('\n') =~= entry_text(e));
        },
        _ => {
            lemma_scan_key(m, k);
            let m3 = Machine {
                mode: State::Separator,
                key: k,
                value: Seq::empty(),
                entries: settled(m),
                items: m.items,
            };
            lemma_scan_value(m3, e.1);
            lemma_scan_concat(m, k + seq![':', ' '], value_text(e.1) + seq!['\n']);
            assert((k + seq![':', ' ']) + (value_text(e.1) + seq!['\n']) =~= entry_text(e));
        },
    }
}

/// The text of a document leaves the scanner at the start of a line, with
/// the pairs of the document.
pub proof fn lemma_scan_document(entries: Seq<Entry>)
    requires
        is_valid_document(entries),
    ensures
        scan(initial(), document_text(entries)) matches Ok(n) && n.mode == State::Reading
            && settled(n) == entries,
    decreases entries.len(),
{
    if entries.len() == 0 {
        assert(settled(initial()) =~= entries);
    } else {
        let front = entries.drop_last();
        let last = entries.last();
        assert forall|i: int| 0 <= i < front.len() implies is_valid_entry(#[trigger] front[i]) by {
            assert(front[i] == entries[i]);
        }
        assert(is_valid_entry(entries[entries.len() - 1]));
        lemma_scan_document(front);
        let mf = scan(initial(), document_text(front))->Ok_0;
        lemma_scan_entry(mf, last);
        lemma_scan_concat(initial(), document_text(front), entry_text(last));
        assert(front.push(last) =~= entries);
    }
}

/// Scanning the text of a document gives the document back: for every
/// document of the format, the text that writes it is read as that
/// document.
pub proof fn lemma_round_trip(entries: Seq<Entry>)
    requires
        is_valid_document(entries),
    ensures
        parse_text(document_text(entries)) == Ok::<Seq<Entry>, Failure>(entries),
{
    lemma_scan_document(entries);
}

} // verus!
