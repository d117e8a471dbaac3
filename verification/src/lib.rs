//! CFUA: a line-oriented configuration text format.
//!
//! A document is an ordered list of `(key, value)` pairs. [`Cfua::from_string`]
//! scans text into a document, [`Cfua::to_string`] writes a document back as
//! text, and scanning what was written gives the document back.
//!
//! ```text
//! % a comment
//! @section
//! number: -12
//! mask: hff
//! ratio: 0.25
//! flag: true
//! text: 'first line
//! 'second line
//! primes: [2, 3, 5, 7]
//! names: [
//! #'one
//! #'two
//! ]
//! ```
//!
//! The contracts speak of models: a document is a sequence of
//! [`Entry`](cfua::Entry), a value a [`Value`](cfua::Value), an error a
//! [`Failure`](error::Failure). What a text is read as is
//! [`parse_text`](parser::parse_text), what a document is written as is
//! [`document_text`](write::document_text). Module [`round_trip`] proves
//! that the first undoes the second, module [`sound`] that every document
//! that is read is one that can be written, and module [`laws`] states
//! what follows from the two.
pub mod text;
pub mod number;
pub mod float;
pub mod cfua;
pub mod array;
pub mod error;
pub mod token;
pub mod parser;
pub mod read;
pub mod write;
pub mod valid;
pub mod round_trip;
pub mod sound;
pub mod laws;

pub use number::parse_integer;
pub use number::render_integer;
pub use float::CfuaFloat;
pub use cfua::Cfua;
pub use cfua::CfuaType;
pub use error::CfuaError;
pub use parser::ParserData;
pub use array::CfuaBooleanArray;
pub use array::CfuaFloatArray;
pub use array::CfuaIntegerArray;
pub use array::CfuaStringArray;
pub use array::ToCfuaArray;
