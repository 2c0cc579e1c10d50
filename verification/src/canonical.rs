//! The canonical form of a source text: the text of the canonical tokens of
//! its statements. It scans and parses to the same statements as the text it
//! was made from.

use crate::grammar::spec_program;
use crate::lexer::{first_failure, line_feeds, scan_checked, token_stream};
use crate::parser::Parser;
use crate::roundtrip::lemma_text_round_trip;
use crate::serializer::{program_to_source, program_tokens};
use crate::source::source_text;
use vstd::prelude::*;

verus! {

/// Whether the buffer has a canonical form: its lines fit the line counter,
/// it scans without failure to tokens that a parser can hold, and they parse
/// without failure.
pub open spec fn has_canonical_form(buf: Seq<char>) -> bool {
    &&& 1 + line_feeds(buf, 0) <= u32::MAX
    &&& first_failure(buf, 0, 1) is None
    &&& token_stream(buf, 0, 1).len() < usize::MAX
    &&& spec_program(token_stream(buf, 0, 1), 0, Seq::empty()).failure is None
}

/// The canonical form of `file_buffer`, where it has one: the text of the
/// canonical tokens of its statements, on one line, with a space behind each
/// token. Scanning and parsing the canonical form gives, without failure, the
/// statements that scanning and parsing `file_buffer` gives.
pub fn canonical_source(file_buffer: &str) -> (text: Option<String>)
    ensures
        text is Some <==> has_canonical_form(file_buffer@),
        match text {
            Some(text) => {
                let first = spec_program(token_stream(file_buffer@, 0, 1), 0, Seq::empty());
                let again = spec_program(token_stream(text@, 0, 1), 0, Seq::empty());
                &&& text@ == source_text(program_tokens(first.statements, 0), 0)
                &&& again.statements == first.statements
                &&& again.failure is None
            },
            None => true,
        },
{
    let (tokens, failure) = match scan_checked(file_buffer) {
        Some(found) => found,
        None => return None,
    };
    if failure.is_some() || tokens.len() == usize::MAX {
        return None;
    }
    let mut parser = Parser::new(tokens);
    let (statements, failure) = parser.parse_program();
    if failure.is_some() {
        return None;
    }
    proof {
        lemma_text_round_trip(file_buffer@);
    }
    Some(program_to_source(&statements))
}

} // verus!
