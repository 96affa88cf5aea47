//! Texts that the interpreter reports: positions and error messages.
use vstd::prelude::*;

use crate::data::Source;
use crate::text::{decimal, push_decimal};

verus! {

/// `line:column:source`.
pub open spec fn source_text(s: Source) -> Seq<char> {
    decimal(s.line as nat) + ":"@ + decimal(s.column as nat) + ":"@ + s.source@
}

impl Source {
    /// The position written `line:column:source`.
    pub fn to_string(&self) -> (r: String)
        ensures
            r@ == source_text(*self),
    {
        let mut out = String::new();
        push_decimal(&mut out, self.line as u128);
        out.append(":");
        push_decimal(&mut out, self.column as u128);
        out.append(":");
        out.append(self.source.as_str());
        proof {
            assert(out@ =~= source_text(*self));
        }
        out
    }
}

/// The text of an optional position: the position, or `_` where there is none.
pub fn optional_source(source: &Option<Source>) -> (r: String)
    ensures
        r@ == (match *source {
            Some(s) => source_text(s),
            None => "_"@,
        }),
{
    if let Some(ref source) = *source {
        source.to_string()
    } else {
        "_".to_owned()
    }
}

/// The message for a call with `got` arguments where between `expected_min`
/// and `expected_max` were expected.
pub open spec fn arity_text(expected_min: usize, expected_max: usize, got: usize) -> Seq<char> {
    if expected_min == expected_max {
        "arity mismatch: expected "@ + decimal(expected_min as nat) + " but got "@ + decimal(
            got as nat,
        )
    } else if expected_min < expected_max && expected_min == 0 {
        "arity mismatch: expected <="@ + decimal(expected_max as nat) + " but got "@ + decimal(
            got as nat,
        )
    } else if expected_min < expected_max && expected_max == usize::MAX {
        "arity mismatch: expected >="@ + decimal(expected_min as nat) + " but got "@ + decimal(
            got as nat,
        )
    } else {
        "arity mismatch: expected >="@ + decimal(expected_min as nat) + " and <="@ + decimal(
            expected_max as nat,
        ) + " but got "@ + decimal(got as nat)
    }
}

/// The message for a call with the wrong number of arguments. A maximum of
/// `usize::MAX` stands for no maximum.
pub fn arity_mismatch(expected_min: usize, expected_max: usize, got: usize) -> (r: String)
    ensures
        r@ == arity_text(expected_min, expected_max, got),
{
    let mut out = String::new();
    if expected_min == expected_max {
        out.append("arity mismatch: expected ");
        push_decimal(&mut out, expected_min as u128);
    } else if expected_min < expected_max && expected_min == 0 {
        out.append("arity mismatch: expected <=");
        push_decimal(&mut out, expected_max as u128);
    } else if expected_min < expected_max && expected_max == usize::MAX {
        out.append("arity mismatch: expected >=");
        push_decimal(&mut out, expected_min as u128);
    } else {
        out.append("arity mismatch: expected >=");
        push_decimal(&mut out, expected_min as u128);
        out.append(" and <=");
        push_decimal(&mut out, expected_max as u128);
    }
    out.append(" but got ");
    push_decimal(&mut out, got as u128);
    proof {
        assert(out@ =~= arity_text(expected_min, expected_max, got));
    }
    out
}

/// The message for a variable that is not bound.
pub fn not_found(string: &str) -> (r: String)
    ensures
        r@ == "variable not found: "@ + string@,
{
    let mut out = "variable not found: ".to_owned();
    out.append(string);
    out
}

} // verus!
