//! The scanner: a state machine that reads a text one character at a time.
//!
//! [`step`] says what one character does to the machine, [`scan`] runs a
//! whole text through it, and [`finish`] says what the end of the text
//! yields. [`ParserData`] is the machine that runs; each of its methods does
//! what the function of the same state says.
//!
//! Choices where the format leaves room:
//! - A string may stand wherever an element of an array may, also after
//!   elements that were separated by commas; from there on the array is
//!   read in the `#` style. The elements of an array may be of more than
//!   one type.
//! - An element that is not a string begins with a visible ASCII character
//!   and is read in the way of a value behind a key: it may be a number,
//!   `true`, `false`, `nan`, `inf` or `-inf`.
//! - `[]` is the array without elements. Behind a comma an element has to
//!   follow.
//! - The text may end without a final newline behind a value or a section's
//!   name. It may not end inside a key, behind a `:` or inside an array:
//!   the first two report an empty value, the last invalid syntax.
//! - A section's name has at least one character.
//! - In a number, the sign stands before the radix marker and nowhere
//!   else, and a float is written `digits.digits`, without an exponent.
use vstd::prelude::*;
use crate::cfua::{values_of, Cfua, CfuaType, Entry, Value};
use crate::error::{CfuaError, Failure};
use crate::token::{resolve_token, scalar_of_token};
use crate::text::{string_from_chars, string_from_tail};

verus! {

/// The states of the scanner.
#[derive(Debug, Clone, Copy, PartialEq, Eq)]
pub enum State {
    /// At the start of a line.
    Reading,
    /// Inside a key.
    Key,
    /// Behind the `:` of a key, before the value.
    Separator,
    /// Inside a value that is not an array.
    Value,
    /// Inside an array whose elements are separated by commas.
    ArraySimple,
    /// Inside an array whose elements are introduced by `#`.
    /// `pending_string` holds while a line of a string element has ended
    /// and the next line may continue it.
    ArrayElement { pending_string: bool },
    /// Inside the name of a section, behind `@`.
    SectionName,
    /// Inside a comment, behind `%`.
    Comment,
}

/// The scanner as a value: its state, what it has buffered, and the pairs
/// that it has completed.
pub struct Machine {
    pub mode: State,
    /// The key, or the section's name, that is being read or whose value is.
    pub key: Seq<char>,
    /// The value, or the element of an array, that is being read. A string
    /// keeps its opening `'`, so the buffer of a string that has begun is
    /// never empty.
    pub value: Seq<char>,
    /// The elements of the array that is being read.
    pub items: Seq<Value>,
    /// The pairs that are complete.
    pub entries: Seq<Entry>,
}

/// `c` is a lower-case letter.
pub open spec fn is_lower(c: char) -> bool {
    'a' <= c <= 'z'
}

/// `c` is a visible ASCII character.
pub open spec fn is_graphic(c: char) -> bool {
    '!' <= c <= '~'
}

/// The scanner before the first character.
pub open spec fn initial() -> Machine {
    Machine {
        mode: State::Reading,
        key: Seq::empty(),
        value: Seq::empty(),
        items: Seq::empty(),
        entries: Seq::empty(),
    }
}

/// The pairs of `m`, with the string that is still open, if there is one,
/// as the last pair.
///
/// A string stays open at the end of its line, since the next line may
/// continue it. It is complete when a key or a section begins or the text
/// ends.
pub open spec fn settled(m: Machine) -> Seq<Entry> {
    if m.value.len() > 0 {
        m.entries.push((m.key, Value::Text(m.value.skip(1))))
    } else {
        m.entries
    }
}

/// One character at the start of a line.
///
/// `%` opens a comment, `@` a section's name and a lower-case letter a key;
/// the last two complete the string that is still open. A `'` continues the
/// open string on a new line, and is skipped where no string is open. A
/// newline is skipped. Any other character is invalid.
pub open spec fn step_reading(m: Machine, c: char) -> Result<Machine, Failure> {
    if c == '%' {
        Ok(Machine { mode: State::Comment, ..m })
    } else if c == '@' {
        Ok(
            Machine {
                mode: State::SectionName,
                key: Seq::empty(),
                value: Seq::empty(),
                entries: settled(m),
                ..m
            },
        )
    } else if is_lower(c) {
        Ok(
            Machine {
                mode: State::Key,
                key: seq![c],
                value: Seq::empty(),
                entries: settled(m),
                ..m
            },
        )
    } else if c == '\'' {
        if m.value.len() > 0 {
            Ok(Machine { mode: State::Value, value: m.value.push('\n'), ..m })
        } else {
            Ok(m)
        }
    } else if c == '\n' {
        Ok(m)
    } else {
        Err(Failure::InvalidChar)
    }
}

/// One character inside a key.
///
/// `:` ends the key. A lower-case letter joins it; a hyphen joins it behind
/// two characters or more, and is an error before that. A space before the
/// first character of the key is skipped. Any other character is an error.
pub open spec fn step_key(m: Machine, c: char) -> Result<Machine, Failure> {
    if c == ':' {
        Ok(Machine { mode: State::Separator, ..m })
    } else if is_lower(c) {
        Ok(Machine { key: m.key.push(c), ..m })
    } else if c == '-' {
        if m.key.len() >= 2 {
            Ok(Machine { key: m.key.push(c), ..m })
        } else {
            Err(Failure::InvalidHyphenInKey)
        }
    } else if c == ' ' && m.key.len() == 0 {
        Ok(m)
    } else {
        Err(Failure::InvalidKeyChar(c))
    }
}

/// The pair of the key and the value that the buffered token writes, or the
/// error of a token that writes none.
pub open spec fn commit_scalar(m: Machine) -> Result<Machine, Failure> {
    match scalar_of_token(m.value) {
        Some(v) => Ok(
            Machine {
                mode: State::Reading,
                key: Seq::empty(),
                value: Seq::empty(),
                entries: m.entries.push((m.key, v)),
                ..m
            },
        ),
        None => Err(Failure::UnknownKeyword(m.value)),
    }
}

/// One character inside a value.
///
/// The first character decides: `[` opens an array, any other begins the
/// buffer, a `'` as the opening of a string. From then on every character
/// but the newline joins the buffer. The newline completes the pair of a
/// token; a string it leaves open, since the next line may continue it.
pub open spec fn step_value(m: Machine, c: char) -> Result<Machine, Failure> {
    if m.value.len() == 0 {
        if c == '[' {
            Ok(Machine { mode: State::ArraySimple, items: Seq::empty(), ..m })
        } else if c == '\n' {
            Err(Failure::EmptyValue)
        } else {
            Ok(Machine { value: seq![c], ..m })
        }
    } else if c == '\n' {
        if m.value[0] == '\'' {
            Ok(Machine { mode: State::Reading, ..m })
        } else {
            commit_scalar(m)
        }
    } else {
        Ok(Machine { value: m.value.push(c), ..m })
    }
}

/// One character behind the `:` of a key.
///
/// Spaces are skipped. The first visible ASCII character is the first
/// character of the value. Any other character is an error.
pub open spec fn step_separator(m: Machine, c: char) -> Result<Machine, Failure> {
    if c == ' ' {
        Ok(m)
    } else if is_graphic(c) {
        step_value(Machine { mode: State::Value, ..m }, c)
    } else {
        Err(Failure::NonGraphicChar)
    }
}

/// One character inside the name of a section.
///
/// The newline completes the marker of the section, whose name is not
/// empty. Letters and hyphens join the name as they join a key. Any other
/// character is an error.
pub open spec fn step_section(m: Machine, c: char) -> Result<Machine, Failure> {
    if c == '\n' {
        if m.key.len() == 0 {
            Err(Failure::InvalidSectionChar(c))
        } else {
            Ok(
                Machine {
                    mode: State::Reading,
                    key: Seq::empty(),
                    entries: m.entries.push((m.key, Value::Section)),
                    ..m
                },
            )
        }
    } else if is_lower(c) {
        Ok(Machine { key: m.key.push(c), ..m })
    } else if c == '-' {
        if m.key.len() >= 2 {
            Ok(Machine { key: m.key.push(c), ..m })
        } else {
            Err(Failure::InvalidHyphenInSection)
        }
    } else {
        Err(Failure::InvalidSectionChar(c))
    }
}

/// One character inside a comment: the newline ends it, and every other
/// character is skipped.
pub open spec fn step_comment(m: Machine, c: char) -> Result<Machine, Failure> {
    if c == '\n' {
        Ok(Machine { mode: State::Reading, ..m })
    } else {
        Ok(m)
    }
}

/// The element that `m` has buffered joins the elements of the array: a
/// string without its opening `'`, or the value that the token writes.
pub open spec fn commit_item(m: Machine) -> Result<Machine, Failure> {
    if m.value.len() > 0 && m.value[0] == '\'' {
        Ok(Machine { value: Seq::empty(), items: m.items.push(Value::Text(m.value.skip(1))), ..m })
    } else {
        match scalar_of_token(m.value) {
            Some(v) => Ok(Machine { value: Seq::empty(), items: m.items.push(v), ..m }),
            None => Err(Failure::InvalidArrayValue(m.value)),
        }
    }
}

/// The array is complete: it becomes the value of the key.
pub open spec fn close_array(m: Machine) -> Machine {
    Machine {
        mode: State::Reading,
        key: Seq::empty(),
        value: Seq::empty(),
        items: Seq::empty(),
        entries: m.entries.push((m.key, Value::Array(m.items))),
    }
}

/// The buffered element joins the array, and the array is complete.
pub open spec fn close_after_item(m: Machine) -> Result<Machine, Failure> {
    match commit_item(m) {
        Ok(n) => Ok(close_array(n)),
        Err(e) => Err(e),
    }
}

/// One character inside an array whose elements are separated by commas.
///
/// Before an element, spaces and newlines are skipped; `#` turns to the `#`
/// style, if no element has been read yet; `'` opens a string element, and
/// with it turns to the `#` style; `]` closes the array, if it is empty; a
/// visible ASCII character begins a token. Inside a token, `,` completes
/// the element and `]` completes the element and the array; every other
/// character but `[` joins the token. `[` is always an error.
pub open spec fn step_array_simple(m: Machine, c: char) -> Result<Machine, Failure> {
    if m.value.len() == 0 {
        if c == ' ' || c == '\n' {
            Ok(m)
        } else if c == '#' {
            if m.items.len() == 0 {
                Ok(Machine { mode: State::ArrayElement { pending_string: false }, ..m })
            } else {
                Err(Failure::MixedArrayDecl)
            }
        } else if c == '\'' {
            Ok(
                Machine {
                    mode: State::ArrayElement { pending_string: false },
                    value: seq![c],
                    ..m
                },
            )
        } else if c == '[' {
            Err(Failure::NestedArray)
        } else if c == ']' {
            if m.items.len() == 0 {
                Ok(close_array(m))
            } else {
                Err(Failure::InvalidChar)
            }
        } else if c == ',' {
            Err(Failure::InvalidChar)
        } else if is_graphic(c) {
            Ok(Machine { value: seq![c], ..m })
        } else {
            Err(Failure::InvalidChar)
        }
    } else if c == ',' {
        commit_item(m)
    } else if c == ']' {
        close_after_item(m)
    } else if c == '[' {
        Err(Failure::NestedArray)
    } else {
        Ok(Machine { value: m.value.push(c), ..m })
    }
}

/// One character inside an array whose elements are introduced by `#`.
///
/// Before an element, spaces, newlines and `#` are skipped, `]` closes the
/// array, and a visible ASCII character begins an element: a `'` a string,
/// any other a token. A token ends with its line, or with the `]` that
/// closes the array. A line of a string ends with the newline; behind it
/// spaces are skipped, a `'` continues the string on the new line, `#`
/// completes the string, and `]` completes the string and the array.
pub open spec fn step_array_element(m: Machine, pending_string: bool, c: char) -> Result<
    Machine,
    Failure,
> {
    if pending_string {
        if c == ' ' {
            Ok(m)
        } else if c == '\'' {
            Ok(
                Machine {
                    mode: State::ArrayElement { pending_string: false },
                    value: m.value.push('\n'),
                    ..m
                },
            )
        } else if c == '#' {
            match commit_item(m) {
                Ok(n) => Ok(Machine { mode: State::ArrayElement { pending_string: false }, ..n }),
                Err(e) => Err(e),
            }
        } else if c == ']' {
            close_after_item(m)
        } else {
            Err(Failure::InvalidChar)
        }
    } else if m.value.len() == 0 {
        if c == ' ' || c == '\n' || c == '#' {
            Ok(m)
        } else if c == '[' {
            Err(Failure::NestedArray)
        } else if c == ']' {
            Ok(close_array(m))
        } else if is_graphic(c) {
            Ok(Machine { value: seq![c], ..m })
        } else {
            Err(Failure::InvalidChar)
        }
    } else if m.value[0] == '\'' {
        if c == '\n' {
            Ok(Machine { mode: State::ArrayElement { pending_string: true }, ..m })
        } else {
            Ok(Machine { value: m.value.push(c), ..m })
        }
    } else if c == '\n' {
        commit_item(m)
    } else if c == ']' {
        close_after_item(m)
    } else if c == '[' {
        Err(Failure::NestedArray)
    } else {
        Ok(Machine { value: m.value.push(c), ..m })
    }
}

/// What the character `c` does to the scanner `m`: the next scanner, or the
/// error that `c` is.
pub open spec fn step(m: Machine, c: char) -> Result<Machine, Failure> {
    match m.mode {
        State::Reading => step_reading(m, c),
        State::Key => step_key(m, c),
        State::Separator => step_separator(m, c),
        State::Value => step_value(m, c),
        State::ArraySimple => step_array_simple(m, c),
        State::ArrayElement { pending_string } => step_array_element(m, pending_string, c),
        State::SectionName => step_section(m, c),
        State::Comment => step_comment(m, c),
    }
}

/// The scanner after the characters of `text`, from `m`; the first error
/// ends the scan.
pub open spec fn scan(m: Machine, text: Seq<char>) -> Result<Machine, Failure>
    decreases text.len(),
{
    if text.len() == 0 {
        Ok(m)
    } else {
        match step(m, text[0]) {
            Ok(n) => scan(n, text.skip(1)),
            Err(e) => Err(e),
        }
    }
}

/// The scanner at rest: at the start of a line, with no string open.
pub open spec fn rest(m: Machine) -> Machine {
    Machine {
        mode: State::Reading,
        key: Seq::empty(),
        value: Seq::empty(),
        entries: settled(m),
        ..m
    }
}

/// What the end of the text does to the scanner. Behind a value or a
/// section's name it stands for the newline that is missing; inside a key,
/// behind a `:` and inside an array it is an error.
pub open spec fn close(m: Machine) -> Result<Machine, Failure> {
    match m.mode {
        State::Reading | State::Comment => Ok(rest(m)),
        State::Value | State::SectionName => match step(m, '\n') {
            Ok(n) => Ok(rest(n)),
            Err(e) => Err(e),
        },
        State::Key | State::Separator => Err(Failure::EmptyValue),
        State::ArraySimple | State::ArrayElement { .. } => Err(Failure::InvalidChar),
    }
}

/// What the end of the text yields: the pairs of the document, or the
/// error of a text that ends too early.
pub open spec fn finish(m: Machine) -> Result<Seq<Entry>, Failure> {
    match close(m) {
        Ok(n) => Ok(n.entries),
        Err(e) => Err(e),
    }
}

/// The scanner after the longest beginning of `text` that holds no error,
/// from `m`.
pub open spec fn progress(m: Machine, text: Seq<char>) -> Machine
    decreases text.len(),
{
    if text.len() == 0 {
        m
    } else {
        match step(m, text[0]) {
            Ok(n) => progress(n, text.skip(1)),
            Err(_) => m,
        }
    }
}

/// What scanning `text`, beginning in the scanner `m`, yields.
pub open spec fn parse_from(m: Machine, text: Seq<char>) -> Result<Seq<Entry>, Failure> {
    match scan(m, text) {
        Ok(n) => finish(n),
        Err(e) => Err(e),
    }
}

/// The document that `text` writes, or the first error in it.
pub open spec fn parse_text(text: Seq<char>) -> Result<Seq<Entry>, Failure> {
    parse_from(initial(), text)
}

/// The scanner that runs: the text to read and the machine that reads it.
pub struct ParserData {
    input: String,
    key_buffer: Vec<char>,
    value_buffer: Vec<char>,
    array_buffer: Vec<CfuaType>,
    state: State,
    data: Cfua,
}

impl View for ParserData {
    type V = Machine;

    closed spec fn view(&self) -> Machine {
        Machine {
            mode: self.state,
            key: self.key_buffer@,
            value: self.value_buffer@,
            items: values_of(self.array_buffer@),
            entries: self.data@,
        }
    }
}

/// A method that handles one character has done what `expected` says: it
/// has moved to the next scanner, or has reported the error and left the
/// scanner as it was. The text to read is never touched.
pub open spec fn stepped(
    before: ParserData,
    after: ParserData,
    r: Result<(), CfuaError>,
    expected: Result<Machine, Failure>,
) -> bool {
    &&& after.input_text() == before.input_text()
    &&& match expected {
        Ok(m) => r is Ok && after@ == m,
        Err(e) => r matches Err(x) && x@ == e && after@ == before@,
    }
}

/// `r` is the outcome `expected`, as a document or an error.
pub open spec fn parsed(r: Result<Cfua, CfuaError>, expected: Result<Seq<Entry>, Failure>) -> bool {
    match expected {
        Ok(entries) => r matches Ok(document) && document@ == entries,
        Err(e) => r matches Err(x) && x@ == e,
    }
}

impl ParserData {
    /// The text that this scanner reads.
    pub closed spec fn input_text(&self) -> Seq<char> {
        self.input@
    }

    /// A scanner for `input`, before the first character.
    pub fn new(input: String) -> (r: Self)
        ensures
            r@ == initial(),
            r.input_text() == input@,
    {
        let r = ParserData {
            input,
            key_buffer: Vec::new(),
            value_buffer: Vec::new(),
            array_buffer: Vec::new(),
            state: State::Reading,
            data: Cfua::create(),
        };
        assert(r@.items =~= Seq::<Value>::empty());
        r
    }

    /// Completes the string that is still open, if there is one, and
    /// empties the buffers of the key and the value.
    fn settle(&mut self)
        ensures
            final(self).input_text() == old(self).input_text(),
            final(self)@ == (Machine {
                key: Seq::empty(),
                value: Seq::empty(),
                entries: settled(old(self)@),
                ..old(self)@
            }),
    {
        if self.value_buffer.len() > 0 {
            let key = string_from_chars(&self.key_buffer);
            let text = string_from_tail(&self.value_buffer, 1);
            self.data.write_value(key.as_str(), CfuaType::String(text));
        }
        self.key_buffer.clear();
        self.value_buffer.clear();
    }

    /// Completes the pair of the key and the token that are buffered.
    fn push_value(&mut self) -> (r: Result<(), CfuaError>)
        ensures
            stepped(*old(self), *final(self), r, commit_scalar(old(self)@)),
    {
        match resolve_token(&self.value_buffer) {
            Some(value) => {
                let key = string_from_chars(&self.key_buffer);
                self.data.write_value(key.as_str(), value);
                self.key_buffer.clear();
                self.value_buffer.clear();
                self.state = State::Reading;
                Ok(())
            },
            None => Err(CfuaError::UnknownKeyword(string_from_chars(&self.value_buffer))),
        }
    }

    /// One character inside the name of a section.
    fn section_char(&mut self, c: char) -> (r: Result<(), CfuaError>)
        ensures
            stepped(*old(self), *final(self), r, step_section(old(self)@, c)),
    {
        if c == '\n' {
            if self.key_buffer.len() == 0 {
                return Err(CfuaError::InvalidSectionChar(c));
            }
            let key = string_from_chars(&self.key_buffer);
            self.data.write_value(key.as_str(), CfuaType::Section(()));
            self.key_buffer.clear();
            self.state = State::Reading;
            Ok(())
        } else if c >= 'a' && c <= 'z' {
            self.key_buffer.push(c);
            Ok(())
        } else if c == '-' {
            if self.key_buffer.len() >= 2 {
                self.key_buffer.push(c);
                Ok(())
            } else {
                Err(CfuaError::InvalidHyphenInSection)
            }
        } else {
            Err(CfuaError::InvalidSectionChar(c))
        }
    }

    /// One character inside a key.
    fn key_char(&mut self, c: char) -> (r: Result<(), CfuaError>)
        ensures
            stepped(*old(self), *final(self), r, step_key(old(self)@, c)),
    {
        if c == ':' {
            self.state = State::Separator;
            Ok(())
        } else if c >= 'a' && c <= 'z' {
            self.key_buffer.push(c);
            Ok(())
        } else if c == '-' {
            if self.key_buffer.len() >= 2 {
                self.key_buffer.push(c);
                Ok(())
            } else {
                Err(CfuaError::InvalidHyphenInKey)
            }
        } else if c == ' ' && self.key_buffer.len() == 0 {
            Ok(())
        } else {
            Err(CfuaError::InvalidKeyChar(c))
        }
    }

    /// One character behind the `:` of a key.
    fn separator_char(&mut self, c: char) -> (r: Result<(), CfuaError>)
        ensures
            stepped(*old(self), *final(self), r, step_separator(old(self)@, c)),
    {
        if c == ' ' {
            Ok(())
        } else if c >= '!' && c <= '~' {
            let before: State = self.state;
            self.state = State::Value;
            match self.value_char(c) {
                Ok(()) => Ok(()),
                Err(e) => {
                    self.state = before;
                    Err(e)
                },
            }
        } else {
            Err(CfuaError::NonGraphicChar)
        }
    }

    /// One character inside a value.
    fn value_char(&mut self, c: char) -> (r: Result<(), CfuaError>)
        ensures
            stepped(*old(self), *final(self), r, step_value(old(self)@, c)),
    {
        if self.value_buffer.len() == 0 {
            if c == '[' {
                self.state = State::ArraySimple;
                self.array_buffer.clear();
                assert(self@.items =~= Seq::<Value>::empty());
                Ok(())
            } else if c == '\n' {
                Err(CfuaError::EmptyValue)
            } else {
                self.value_buffer.push(c);
                assert(self@.value =~= seq![c]);
                Ok(())
            }
        } else if c == '\n' {
            if self.value_buffer[0] == '\'' {
                self.state = State::Reading;
                Ok(())
            } else {
                self.push_value()
            }
        } else {
            self.value_buffer.push(c);
            Ok(())
        }
    }

    /// The element that is buffered joins the elements of the array.
    fn array_push_value(&mut self) -> (r: Result<(), CfuaError>)
        ensures
            stepped(*old(self), *final(self), r, commit_item(old(self)@)),
    {
        let item: CfuaType = if self.value_buffer.len() > 0 && self.value_buffer[0] == '\'' {
            CfuaType::String(string_from_tail(&self.value_buffer, 1))
        } else {
            match resolve_token(&self.value_buffer) {
                Some(value) => value,
                None => {
                    return Err(
                        CfuaError::InvalidArrayValue(string_from_chars(&self.value_buffer)),
                    );
                },
            }
        };
        let ghost model = item@;
        self.array_buffer.push(item);
        self.value_buffer.clear();
        assert(self@.items =~= old(self)@.items.push(model));
        Ok(())
    }

    /// The array is complete: it becomes the value of the key.
    fn array_close(&mut self)
        ensures
            final(self).input_text() == old(self).input_text(),
            final(self)@ == close_array(old(self)@),
    {
        let mut items: Vec<CfuaType> = Vec::new();
        std::mem::swap(&mut self.array_buffer, &mut items);
        let key = string_from_chars(&self.key_buffer);
        proof {
            crate::cfua::lemma_array_view(items);
        }
        self.data.write_value(key.as_str(), CfuaType::Array(items));
        self.key_buffer.clear();
        self.value_buffer.clear();
        self.state = State::Reading;
        assert(self@.items =~= Seq::<Value>::empty());
    }

    /// The buffered element joins the array, and the array is complete.
    fn array_close_after_value(&mut self) -> (r: Result<(), CfuaError>)
        ensures
            stepped(*old(self), *final(self), r, close_after_item(old(self)@)),
    {
        match self.array_push_value() {
            Ok(()) => {
                self.array_close();
                Ok(())
            },
            Err(e) => Err(e),
        }
    }

    /// One character inside an array, of either style.
    fn array_char(&mut self, c: char) -> (r: Result<(), CfuaError>)
        requires
            old(self)@.mode is ArraySimple || old(self)@.mode is ArrayElement,
        ensures
            stepped(*old(self), *final(self), r, step(old(self)@, c)),
    {
        let fresh: bool = self.value_buffer.len() == 0;
        match self.state {
            State::ArrayElement { pending_string: true } => {
                if c == ' ' {
                    Ok(())
                } else if c == '\'' {
                    self.value_buffer.push('\n');
                    self.state = State::ArrayElement { pending_string: false };
                    Ok(())
                } else if c == '#' {
                    match self.array_push_value() {
                        Ok(()) => {
                            self.state = State::ArrayElement { pending_string: false };
                            Ok(())
                        },
                        Err(e) => Err(e),
                    }
                } else if c == ']' {
                    self.array_close_after_value()
                } else {
                    Err(CfuaError::InvalidChar)
                }
            },
            State::ArrayElement { pending_string: false } => {
                if fresh {
                    if c == ' ' || c == '\n' || c == '#' {
                        Ok(())
                    } else if c == '[' {
                        Err(CfuaError::NestedArray)
                    } else if c == ']' {
                        self.array_close();
                        Ok(())
                    } else if c >= '!' && c <= '~' {
                        self.value_buffer.push(c);
                        assert(self@.value =~= seq![c]);
                        Ok(())
                    } else {
                        Err(CfuaError::InvalidChar)
                    }
                } else if self.value_buffer[0] == '\'' {
                    if c == '\n' {
                        self.state = State::ArrayElement { pending_string: true };
                    } else {
                        self.value_buffer.push(c);
                    }
                    Ok(())
                } else if c == '\n' {
                    self.array_push_value()
                } else if c == ']' {
                    self.array_close_after_value()
                } else if c == '[' {
                    Err(CfuaError::NestedArray)
                } else {
                    self.value_buffer.push(c);
                    Ok(())
                }
            },
            _ => {
                if fresh {
                    if c == ' ' || c == '\n' {
                        Ok(())
                    } else if c == '#' {
                        if self.array_buffer.len() == 0 {
                            self.state = State::ArrayElement { pending_string: false };
                            Ok(())
                        } else {
                            Err(CfuaError::MixedArrayDecl)
                        }
                    } else if c == '\'' {
                        self.value_buffer.push(c);
                        self.state = State::ArrayElement { pending_string: false };
                        assert(self@.value =~= seq![c]);
                        Ok(())
                    } else if c == '[' {
                        Err(CfuaError::NestedArray)
                    } else if c == ']' {
                        if self.array_buffer.len() == 0 {
                            self.array_close();
                            Ok(())
                        } else {
                            Err(CfuaError::InvalidChar)
                        }
                    } else if c == ',' {
                        Err(CfuaError::InvalidChar)
                    } else if c >= '!' && c <= '~' {
                        self.value_buffer.push(c);
                        assert(self@.value =~= seq![c]);
                        Ok(())
                    } else {
                        Err(CfuaError::InvalidChar)
                    }
                } else if c == ',' {
                    self.array_push_value()
                } else if c == ']' {
                    self.array_close_after_value()
                } else if c == '[' {
                    Err(CfuaError::NestedArray)
                } else {
                    self.value_buffer.push(c);
                    Ok(())
                }
            },
        }
    }

    /// One character inside a comment.
    fn comment_char(&mut self, c: char) -> (r: Result<(), CfuaError>)
        ensures
            stepped(*old(self), *final(self), r, step_comment(old(self)@, c)),
    {
        if c == '\n' {
            self.state = State::Reading;
        }
        Ok(())
    }

    /// One character at the start of a line.
    fn basic_char(&mut self, c: char) -> (r: Result<(), CfuaError>)
        ensures
            stepped(*old(self), *final(self), r, step_reading(old(self)@, c)),
    {
        if c == '%' {
            self.state = State::Comment;
            Ok(())
        } else if c == '@' {
            self.settle();
            self.state = State::SectionName;
            Ok(())
        } else if c >= 'a' && c <= 'z' {
            self.settle();
            self.key_buffer.push(c);
            self.state = State::Key;
            Ok(())
        } else if c == '\'' {
            if self.value_buffer.len() > 0 {
                self.value_buffer.push('\n');
                self.state = State::Value;
            }
            Ok(())
        } else if c == '\n' {
            Ok(())
        } else {
            Err(CfuaError::InvalidChar)
        }
    }

    /// Reads the character `c`: the scanner moves as [`step`] says, or
    /// reports the error that `c` is and stays as it was.
    pub fn read_char(&mut self, c: char) -> (r: Result<(), CfuaError>)
        ensures
            stepped(*old(self), *final(self), r, step(old(self)@, c)),
    {
        match self.state {
            State::Reading => self.basic_char(c),
            State::Key => self.key_char(c),
            State::Separator => self.separator_char(c),
            State::Value => self.value_char(c),
            State::ArraySimple => self.array_char(c),
            State::ArrayElement { pending_string: _ } => self.array_char(c),
            State::SectionName => self.section_char(c),
            State::Comment => self.comment_char(c),
        }
    }
    /// The end of the text: the scanner comes to rest as [`close`] says, or
    /// reports the error of a text that ends too early and stays as it was.
    pub fn end_of_text(&mut self) -> (r: Result<(), CfuaError>)
        ensures
            stepped(*old(self), *final(self), r, close(old(self)@)),
    {
        match self.state {
            State::Reading | State::Comment => {
                self.settle();
                self.state = State::Reading;
                Ok(())
            },
            State::Value | State::SectionName => match self.read_char('\n') {
                Ok(()) => {
                    self.settle();
                    self.state = State::Reading;
                    Ok(())
                },
                Err(e) => Err(e),
            },
            State::Key | State::Separator => Err(CfuaError::EmptyValue),
            _ => Err(CfuaError::InvalidChar),
        }
    }

    /// Scans the text that this scanner was made for, from the state that
    /// the scanner is in, and gives the document that it has read.
    ///
    /// On success the scanner is left at rest with the pairs of the
    /// document; on an error it is left where the error found it.
    pub fn parse(&mut self) -> (r: Result<Cfua, CfuaError>)
        ensures
            final(self).input_text() == old(self).input_text(),
            parsed(r, parse_from(old(self)@, old(self).input_text())),
            match scan(old(self)@, old(self).input_text()) {
                Ok(m) => match close(m) {
                    Ok(n) => final(self)@ == n,
                    Err(_) => final(self)@ == m,
                },
                Err(_) => final(self)@ == progress(old(self)@, old(self).input_text()),
            },
    {
        let input: String = self.input.clone();
        let text: &str = input.as_str();
        let ghost start = self@;
        assert(text@.skip(0) =~= text@);
        for c in it: text.chars()
            invariant
                it.seq() == text@,
                0 <= it.index() <= text@.len(),
                text@ == old(self).input_text(),
                start == old(self)@,
                self.input_text() == old(self).input_text(),
                scan(start, text@) == scan(self@, text@.skip(it.index() as int)),
                progress(start, text@) == progress(self@, text@.skip(it.index() as int)),
        {
            let ghost rest = text@.skip(it.index() as int);
            assert(rest.skip(1) =~= text@.skip(it.index() + 1));
            match self.read_char(c) {
                Ok(()) => {},
                Err(e) => {
                    return Err(e);
                },
            }
        }
        match self.end_of_text() {
            Ok(()) => Ok(self.data.clone()),
            Err(e) => Err(e),
        }
    }
}

} // verus!