//! The errors that scanning can report.
use vstd::prelude::*;
use vstd::string::*;
use crate::text::push_char;

verus! {

/// What an error is: the mathematical model of [`CfuaError`].
pub enum Failure {
    EmptyValue,
    NonGraphicChar,
    InvalidChar,
    InvalidKeyChar(char),
    InvalidHyphenInKey,
    InvalidSectionChar(char),
    InvalidHyphenInSection,
    UnknownKeyword(Seq<char>),
    NestedArray,
    MixedArrayType,
    MixedArrayDecl,
    StringInSimpleArray,
    InvalidArrayValue(Seq<char>),
    IoError(Seq<char>),
}

/// The errors that may occur while reading a document.
#[derive(Debug)]
pub enum CfuaError {
    /// A key has no value.
    EmptyValue,
    /// The first character of a value is neither a space nor a visible
    /// ASCII character.
    NonGraphicChar,
    /// A character stands where the syntax allows none of its kind.
    InvalidChar,
    /// The character cannot be part of a key.
    InvalidKeyChar(char),
    /// A hyphen stands among the first two characters of a key.
    InvalidHyphenInKey,
    /// The character cannot be part of a section's name.
    InvalidSectionChar(char),
    /// A hyphen stands among the first two characters of a section's name.
    InvalidHyphenInSection,
    /// The value is neither a number nor a keyword.
    UnknownKeyword(String),
    /// An array stands inside an array.
    NestedArray,
    /// The elements of an array are of more than one type. Kept for callers
    /// that match on every variant; scanning does not report it.
    MixedArrayType,
    /// A `#` follows elements that were separated by commas.
    MixedArrayDecl,
    /// A string stands in a comma-separated array. Kept for callers that
    /// match on every variant; scanning does not report it, a string may
    /// stand wherever an element may.
    StringInSimpleArray,
    /// The element of an array is neither a number nor a keyword.
    InvalidArrayValue(String),
    /// The text could not be read; holds the message of the failure.
    /// Scanning does not report it.
    IoError(String),
}

impl View for CfuaError {
    type V = Failure;

    open spec fn view(&self) -> Failure {
        match self {
            CfuaError::EmptyValue => Failure::EmptyValue,
            CfuaError::NonGraphicChar => Failure::NonGraphicChar,
            CfuaError::InvalidChar => Failure::InvalidChar,
            CfuaError::InvalidKeyChar(c) => Failure::InvalidKeyChar(*c),
            CfuaError::InvalidHyphenInKey => Failure::InvalidHyphenInKey,
            CfuaError::InvalidSectionChar(c) => Failure::InvalidSectionChar(*c),
            CfuaError::InvalidHyphenInSection => Failure::InvalidHyphenInSection,
            CfuaError::UnknownKeyword(s) => Failure::UnknownKeyword(s@),
            CfuaError::NestedArray => Failure::NestedArray,
            CfuaError::MixedArrayType => Failure::MixedArrayType,
            CfuaError::MixedArrayDecl => Failure::MixedArrayDecl,
            CfuaError::StringInSimpleArray => Failure::StringInSimpleArray,
            CfuaError::InvalidArrayValue(s) => Failure::InvalidArrayValue(s@),
            CfuaError::IoError(s) => Failure::IoError(s@),
        }
    }
}

impl PartialEq for CfuaError {
    fn eq(&self, other: &Self) -> (r: bool) {
        match self {
            CfuaError::EmptyValue => matches!(other, CfuaError::EmptyValue),
            CfuaError::NonGraphicChar => matches!(other, CfuaError::NonGraphicChar),
            CfuaError::InvalidChar => matches!(other, CfuaError::InvalidChar),
            CfuaError::InvalidKeyChar(a) => match other {
                CfuaError::InvalidKeyChar(b) => *a == *b,
                _ => false,
            },
            CfuaError::InvalidHyphenInKey => matches!(other, CfuaError::InvalidHyphenInKey),
            CfuaError::InvalidSectionChar(a) => match other {
                CfuaError::InvalidSectionChar(b) => *a == *b,
                _ => false,
            },
            CfuaError::InvalidHyphenInSection => matches!(other, CfuaError::InvalidHyphenInSection),
            CfuaError::UnknownKeyword(a) => match other {
                CfuaError::UnknownKeyword(b) => *a == *b,
                _ => false,
            },
            CfuaError::NestedArray => matches!(other, CfuaError::NestedArray),
            CfuaError::MixedArrayType => matches!(other, CfuaError::MixedArrayType),
            CfuaError::MixedArrayDecl => matches!(other, CfuaError::MixedArrayDecl),
            CfuaError::StringInSimpleArray => matches!(other, CfuaError::StringInSimpleArray),
            CfuaError::InvalidArrayValue(a) => match other {
                CfuaError::InvalidArrayValue(b) => *a == *b,
                _ => false,
            },
            CfuaError::IoError(a) => match other {
                CfuaError::IoError(b) => *a == *b,
                _ => false,
            },
        }
    }
}

impl vstd::std_specs::cmp::PartialEqSpecImpl for CfuaError {
    open spec fn obeys_eq_spec() -> bool {
        true
    }

    open spec fn eq_spec(&self, other: &Self) -> bool {
        self@ == other@
    }
}

/// The message of an error.
pub open spec fn message_of(failure: Failure) -> Seq<char> {
    match failure {
        Failure::EmptyValue => "value must not be empty"@,
        Failure::NonGraphicChar => "non-garphic char"@,
        Failure::InvalidChar => "invalid syntax"@,
        Failure::InvalidKeyChar(c) => "invalid char: '"@.push(c) + "' in key name"@,
        Failure::InvalidHyphenInKey => "hyphen not allowed at the beginning of key name"@,
        Failure::InvalidSectionChar(c) => "invalid char: '"@.push(c) + "' in section name"@,
        Failure::InvalidHyphenInSection => "hyphen not allowed at the beginning of section name"@,
        Failure::UnknownKeyword(text) => "unknown keyword: '"@ + text + "'"@,
        Failure::NestedArray => "nested arrays are not allowed"@,
        Failure::MixedArrayType => "array type is ambiguous"@,
        Failure::MixedArrayDecl => "mixed comma-based and hash-based array declatation"@,
        Failure::StringInSimpleArray => "string value in simple array declaration"@,
        Failure::InvalidArrayValue(text) => "invalid array element: '"@ + text + "'"@,
        Failure::IoError(text) => "io error: "@ + text,
    }
}

impl CfuaError {
    /// The message of this error, for a person to read.
    pub fn to_string(&self) -> (r: String)
        ensures
            r@ == message_of(self@),
    {
        match self {
            CfuaError::EmptyValue => "value must not be empty".to_owned(),
            CfuaError::NonGraphicChar => "non-garphic char".to_owned(),
            CfuaError::InvalidChar => "invalid syntax".to_owned(),
            CfuaError::InvalidKeyChar(c) => {
                let mut out: String = "invalid char: '".to_owned();
                push_char(&mut out, *c);
                out.append("' in key name");
                out
            },
            CfuaError::InvalidHyphenInKey => {
                "hyphen not allowed at the beginning of key name".to_owned()
            },
            CfuaError::InvalidSectionChar(c) => {
                let mut out: String = "invalid char: '".to_owned();
                push_char(&mut out, *c);
                out.append("' in section name");
                out
            },
            CfuaError::InvalidHyphenInSection => {
                "hyphen not allowed at the beginning of section name".to_owned()
            },
            CfuaError::UnknownKeyword(text) => {
                let mut out: String = "unknown keyword: '".to_owned();
                out.append(text.as_str());
                out.append("'");
                out
            },
            CfuaError::NestedArray => "nested arrays are not allowed".to_owned(),
            CfuaError::MixedArrayType => "array type is ambiguous".to_owned(),
            CfuaError::MixedArrayDecl => {
                "mixed comma-based and hash-based array declatation".to_owned()
            },
            CfuaError::StringInSimpleArray => "string value in simple array declaration".to_owned(),
            CfuaError::InvalidArrayValue(text) => {
                let mut out: String = "invalid array element: '".to_owned();
                out.append(text.as_str());
                out.append("'");
                out
            },
            CfuaError::IoError(text) => {
                let mut out: String = "io error: ".to_owned();
                out.append(text.as_str());
                out
            },
        }
    }
}

} // verus!
