//! The data model of the interpreter: source positions, values and the
//! commands that live on the program stack.
use std::sync::Arc;
use vstd::prelude::*;
use vstd::std_specs::cmp::PartialEqSpecImpl;

use crate::env::Deparize;

verus! {

/// A variable or parameter name.
pub type Symbol = String;

/// A shared, immutable node of a program or of a value.
pub type Statement = Arc<Sourcedata>;

/// The program stack: the last element is the next thing to run.
pub type Program = Vec<Statement>;

/// A position in a source text.
#[derive(Debug)]
pub struct Source {
    pub line: usize,
    pub column: usize,
    pub source: String,
}

impl Clone for Source {
    fn clone(&self) -> (r: Self)
        ensures
            r == *self,
    {
        Source { line: self.line, column: self.column, source: self.source.clone() }
    }
}

impl PartialEq for Source {
    fn eq(&self, other: &Self) -> (r: bool) {
        self.line == other.line && self.column == other.column && self.source == other.source
    }
}

impl PartialEqSpecImpl for Source {
    open spec fn obeys_eq_spec() -> bool {
        true
    }

    open spec fn eq_spec(&self, other: &Source) -> bool {
        self.line == other.line && self.column == other.column && self.source@ == other.source@
    }
}

impl Default for Source {
    /// The position of text whose origin is not known: line 1, column 1 of `unknown`.
    fn default() -> (r: Source)
        ensures
            r.line == 1,
            r.column == 1,
            r.source@ == "unknown"@,
    {
        Source { line: 1, column: 1, source: "unknown".to_owned() }
    }
}

/// A function value: either one of the interpreter's native routines, known by
/// its number and name, or a function written in the language itself, with its
/// parameter names and its code (stored last statement first).
#[derive(Debug)]
pub enum Function {
    Builtin(usize, String),
    Library(Vec<Symbol>, Vec<Statement>),
}

/// A macro value: a native macro, or one written in the language with a single
/// parameter that receives the unevaluated argument list.
#[derive(Debug)]
pub enum Macro {
    Builtin(usize, String),
    Library(Symbol, Vec<Statement>),
}

/// Commands that the interpreter places on the program stack for itself.
#[derive(Debug)]
pub enum Commands {
    /// Apply a function to the given number of evaluated arguments.
    Call(usize),
    /// Remove the listed parameter bindings from the store.
    Deparize(Deparize),
    /// A marker that stops an unwind.
    Wind,
}

/// The core of every value.
#[derive(Debug)]
pub enum Coredata {
    Boolean(bool),
    Cell(Statement, Statement),
    Error(Statement),
    Function(Function),
    Integer(i128),
    Internal(Commands),
    Macro(Macro),
    Null(),
    String(String),
    Symbol(Symbol),
    Table(Vec<(Symbol, Statement)>),
}

/// A value together with the place in the source text where it was written.
#[derive(Debug)]
pub struct Sourcedata(pub Option<Source>, pub Coredata);

/// The value a shared pointer points to.
pub open spec fn pointee(s: &Statement) -> Sourcedata {
    **s
}

/// Puts a value behind a shared pointer.
pub fn rc<T>(value: T) -> (r: Arc<T>)
    ensures
        *r == value,
{
    Arc::new(value)
}

/// Puts a value with no source position behind a shared pointer.
pub fn rcs(data: Coredata) -> (r: Statement)
    ensures
        *r == Sourcedata(None, data),
{
    rc(Sourcedata(None, data))
}

/// The name of the kind of a value, as the interpreter reports it.
pub open spec fn kind_name(c: Coredata) -> Seq<char> {
    match c {
        Coredata::Boolean(..) => "Boolean"@,
        Coredata::Cell(..) => "Cell"@,
        Coredata::Error(..) => "Error"@,
        Coredata::Function(Function::Builtin(..)) => "Builtin Function"@,
        Coredata::Function(Function::Library(..)) => "Function"@,
        Coredata::Integer(..) => "Integer"@,
        Coredata::Internal(..) => "Internal"@,
        Coredata::Macro(..) => "Macro"@,
        Coredata::Null(..) => "Null"@,
        Coredata::String(..) => "String"@,
        Coredata::Symbol(..) => "Symbol"@,
        Coredata::Table(..) => "Table"@,
    }
}

/// Get the name associated with the data type.
pub fn data_name(data: &Sourcedata) -> (r: String)
    ensures
        r@ == kind_name(data.1),
{
    let name: &str = match data.1 {
        Coredata::Boolean(..) => "Boolean",
        Coredata::Cell(..) => "Cell",
        Coredata::Error(..) => "Error",
        Coredata::Function(Function::Builtin(..)) => "Builtin Function",
        Coredata::Function(Function::Library(..)) => "Function",
        Coredata::Integer(..) => "Integer",
        Coredata::Internal(..) => "Internal",
        Coredata::Macro(..) => "Macro",
        Coredata::Null(..) => "Null",
        Coredata::String(..) => "String",
        Coredata::Symbol(..) => "Symbol",
        Coredata::Table(..) => "Table",
    };
    name.to_owned()
}

} // verus!
