//! Reading a document from text.
use vstd::prelude::*;
use crate::cfua::Cfua;
use crate::error::CfuaError;
use crate::parser::{parse_text, parsed, ParserData};
use crate::sound::{is_scanning_error, lemma_parse_error, lemma_parsed_is_valid};
use crate::valid::{is_valid_document, lemma_valid_is_flat};
use crate::write::is_flat;

verus! {

impl Cfua {
    /// Reads the document that `text` writes, or reports the first error
    /// in it.
    ///
    /// A document that is read is a document of the format, and can be
    /// written again: its keys are names and its arrays hold no array and
    /// no section.
    pub fn from_string(text: &str) -> (r: Result<Cfua, CfuaError>)
        ensures
            parsed(r, parse_text(text@)),
            r matches Ok(document) ==> is_valid_document(document@) && is_flat(document@),
            r matches Err(e) ==> is_scanning_error(e@),
    {
        let mut scanner = ParserData::new(text.to_owned());
        let r = scanner.parse();
        proof {
            lemma_parsed_is_valid(text@);
            lemma_parse_error(text@);
            if r is Ok {
                lemma_valid_is_flat(r->Ok_0@);
            }
        }
        r
    }
}

} // verus!
