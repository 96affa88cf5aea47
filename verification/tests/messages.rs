use lib::data::Source;
use lib::messages::{arity_mismatch, not_found, optional_source};
use lib::parse_state::ParseState;

#[test]
fn arity_messages() {
    assert_eq!(arity_mismatch(2, 2, 3), "arity mismatch: expected 2 but got 3");
    assert_eq!(arity_mismatch(0, 4, 5), "arity mismatch: expected <=4 but got 5");
    assert_eq!(arity_mismatch(1, usize::MAX, 0), "arity mismatch: expected >=1 but got 0");
    assert_eq!(arity_mismatch(1, 3, 10), "arity mismatch: expected >=1 and <=3 but got 10");
    assert_eq!(arity_mismatch(5, 3, 4), "arity mismatch: expected >=5 and <=3 but got 4");
    assert_eq!(arity_mismatch(0, 0, 1), "arity mismatch: expected 0 but got 1");
}

#[test]
fn not_found_message() {
    assert_eq!(not_found("x"), "variable not found: x");
    assert_eq!(not_found(""), "variable not found: ");
}

#[test]
fn positions() {
    let src = Source { line: 12, column: 7, source: "lib.lisp".to_string() };
    assert_eq!(src.to_string(), "12:7:lib.lisp");
    assert_eq!(optional_source(&Some(src.clone())), "12:7:lib.lisp");
    assert_eq!(optional_source(&None), "_");
    let unknown = Source::default();
    assert_eq!(unknown.to_string(), "1:1:unknown");
    assert!(unknown == Source { line: 1, column: 1, source: "unknown".to_string() });
    assert!(unknown != src);
}

#[test]
fn parse_states() {
    let fresh = ParseState::default();
    assert_eq!(fresh.current_read_position.to_string(), "1:1:unknown");
    assert_eq!(fresh.start_of_current_lexeme.to_string(), "1:1:unknown");
    assert!(fresh.unmatched_opening_parentheses.is_empty());
    assert_eq!(fresh.token, "");
    assert_eq!(fresh.stack.len(), 1);
    assert!(fresh.stack[0].is_empty());
    assert!(fresh.error.is_none());
    let named = ParseState::from("input.txt");
    assert_eq!(named.current_read_position.to_string(), "1:1:input.txt");
    assert_eq!(named.start_of_current_lexeme.to_string(), "1:1:unknown");
    assert_eq!(named.stack.len(), 1);
}
