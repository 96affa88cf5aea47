//! The state of the reader between characters.
use vstd::prelude::*;

use crate::data::{Source, Statement};

verus! {

/// Where the reader stands in a source text and what it has gathered so far.
#[derive(Debug)]
pub struct ParseState {
    pub current_read_position: Source,
    pub start_of_current_lexeme: Source,
    pub unmatched_opening_parentheses: Vec<Source>,
    pub token: String,
    pub stack: Vec<Vec<Statement>>,
    pub error: Option<String>,
}

/// A reader at the start of an unknown text: both positions are the default
/// position, nothing is open or gathered, and one empty list waits for values.
pub open spec fn fresh_state(s: ParseState) -> bool {
    &&& s.start_of_current_lexeme.line == 1
    &&& s.start_of_current_lexeme.column == 1
    &&& s.start_of_current_lexeme.source@ == "unknown"@
    &&& s.unmatched_opening_parentheses@.len() == 0
    &&& s.token@.len() == 0
    &&& s.stack@.len() == 1
    &&& s.stack@[0]@.len() == 0
    &&& s.error is None
}

impl Default for ParseState {
    fn default() -> (r: ParseState)
        ensures
            fresh_state(r),
            r.current_read_position.line == 1,
            r.current_read_position.column == 1,
            r.current_read_position.source@ == "unknown"@,
    {
        let mut stack: Vec<Vec<Statement>> = Vec::new();
        stack.push(Vec::new());
        ParseState {
            current_read_position: Source::default(),
            start_of_current_lexeme: Source::default(),
            unmatched_opening_parentheses: Vec::new(),
            token: String::new(),
            stack,
            error: None,
        }
    }
}

impl ParseState {
    /// A reader at line 1, column 1 of the text named `source`.
    pub fn from(source: &str) -> (r: ParseState)
        ensures
            fresh_state(r),
            r.current_read_position.line == 1,
            r.current_read_position.column == 1,
            r.current_read_position.source@ == source@,
    {
        let mut state = ParseState::default();
        state.current_read_position = Source { line: 1, column: 1, source: source.to_owned() };
        state
    }
}

} // verus!
