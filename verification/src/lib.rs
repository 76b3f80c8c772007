//! Textual rewriting of "humanly nested" JSON: documents in which some
//! fields hold bare nested JSON that a downstream schema expects as
//! JSON-encoded strings. The escaper quotes and escapes those nested
//! structures at the multiplicity their nesting depth demands; the line
//! joiner collapses a pretty-printed document to one line.

use vstd::prelude::*;

pub mod escaping;
pub mod lines;
mod text;

pub use escaping::TransError;

verus! {

use crate::escaping::escape_ok;
use crate::escaping::escape_spec;
use crate::lines::strip_line_breaks;

/// A textual JSON transformer over a borrowed input string.
pub struct TransJson<'a> {
    s: &'a str,
}

impl<'a> View for TransJson<'a> {
    type V = Seq<char>;

    closed spec fn view(&self) -> Seq<char> {
        self.s@
    }
}

impl<'a> TransJson<'a> {
    pub fn new(s: &'a str) -> (r: Self)
        ensures
            r@ == s@,
    {
        Self { s }
    }

    /// Joins lines, then escapes the nested structures of the result;
    /// errs exactly when some container of the joined text is opened
    /// but never closed.
    pub fn trans(&self) -> (r: Result<String, TransError>)
        ensures
            (r is Ok <==> escape_ok(strip_line_breaks(self@))),
            (r matches Ok(t) ==> t@ == escape_spec(strip_line_breaks(self@))),
            (r matches Err(e) ==> e == TransError::UnterminatedStructure),
    {
        let joined = Self::oneline_base(self.s);
        Self::escape_base(joined.as_str())
    }

    /// Removes every carriage return and line feed, preserving all
    /// other characters in order.
    pub fn oneline(&self) -> (r: String)
        ensures
            r@ == strip_line_breaks(self@),
    {
        Self::oneline_base(self.s)
    }

    /// Turns every bare nested object or array into a properly quoted,
    /// escaped JSON string; errs exactly when some container is opened
    /// but never closed.
    pub fn escape(&self) -> (r: Result<String, TransError>)
        ensures
            (r is Ok <==> escape_ok(self@)),
            (r matches Ok(t) ==> t@ == escape_spec(self@)),
            (r matches Err(e) ==> e == TransError::UnterminatedStructure),
    {
        Self::escape_base(self.s)
    }

    fn oneline_base(s: &str) -> (r: String)
        ensures
            r@ == strip_line_breaks(s@),
    {
        let chars = crate::text::chars_of(s);
        let stripped = crate::lines::strip_chars(&chars);
        crate::text::string_from_chars(&stripped)
    }

    fn escape_base(s: &str) -> (r: Result<String, TransError>)
        ensures
            (r is Ok <==> escape_ok(s@)),
            (r matches Ok(t) ==> t@ == escape_spec(s@)),
            (r matches Err(e) ==> e == TransError::UnterminatedStructure),
    {
        let chars = crate::text::chars_of(s);
        match crate::escaping::escape_for_nested_json(&chars) {
            Ok(t) => Ok(crate::text::string_from_chars(&t)),
            Err(e) => Err(e),
        }
    }
}

} // verus!
