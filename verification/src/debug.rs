//! The texts that a programmer inspecting functions and macros sees: their
//! parameters and code in Debug form.
use vstd::prelude::*;

use crate::data::{pointee, Commands, Coredata, Function, Macro, Source, Sourcedata, Statement, Symbol};
use crate::env::names_view;
use crate::render::printed;
use crate::text::{decimal, integer_text, push_decimal, push_integer};

verus! {

/// The Debug form of a string: `str`'s `Debug::fmt`, which puts the string in
/// double quotes with some characters escaped.
pub uninterp spec fn debug_quoted(s: Seq<char>) -> Seq<char>;

/// `<str as Debug>::fmt`, through `format!("{:?}", ..)`. The contract names its
/// result: it depends on the characters of the string alone, and the escaping
/// rules, which rest on Unicode's tables, are not written out.
#[verifier::external_body]
fn quoted(s: &str) -> (r: String)
    ensures
        r@ == debug_quoted(s@),
{
    format!("{:?}", s)
}

fn push_quoted(out: &mut String, s: &str)
    ensures
        final(out)@ == old(out)@ + debug_quoted(s@),
{
    let q = quoted(s);
    out.append(q.as_str());
}

pub open spec fn bool_text(b: bool) -> Seq<char> {
    if b {
        "true"@
    } else {
        "false"@
    }
}

/// The Debug form of a position.
pub open spec fn source_debug(s: Source) -> Seq<char> {
    "Source { line: "@ + decimal(s.line as nat) + ", column: "@ + decimal(s.column as nat)
        + ", source: "@ + debug_quoted(s.source@) + " }"@
}

/// The Debug form of an optional position.
pub open spec fn place_debug(place: Option<Source>) -> Seq<char> {
    match place {
        None => "None"@,
        Some(s) => "Some("@ + source_debug(s) + ")"@,
    }
}

/// The Debug forms of names, separated by `sep`.
pub open spec fn quoted_join(names: Seq<Seq<char>>, sep: Seq<char>) -> Seq<char>
    decreases names.len(),
{
    if names.len() == 0 {
        Seq::<char>::empty()
    } else if names.len() == 1 {
        debug_quoted(names[0])
    } else {
        quoted_join(names.drop_last(), sep) + sep + debug_quoted(names.last())
    }
}

/// The Debug form of a command.
pub open spec fn command_debug(c: Commands) -> Seq<char> {
    match c {
        Commands::Call(n) => "Call("@ + decimal(n as nat) + ")"@,
        Commands::Deparize(d) => "Deparize(Deparize { arguments: ["@ + quoted_join(d@, ", "@)
            + "] })"@,
        Commands::Wind => "Wind"@,
    }
}

/// The Debug form of a value: the form that `derive(Debug)` gives its types,
/// where a function or a macro shows as `function_debug` or `macro_debug`.
pub open spec fn data_debug(d: Sourcedata) -> Seq<char>
    decreases d, 1int,
{
    "Sourcedata("@ + place_debug(d.0) + ", "@ + core_debug(d.1) + ")"@
}

/// The Debug form of the core of a value.
#[verifier::opaque]
pub open spec fn core_debug(c: Coredata) -> Seq<char>
    decreases c, 0int,
{
    match c {
        Coredata::Boolean(b) => "Boolean("@ + bool_text(b) + ")"@,
        Coredata::Cell(h, t) => "Cell("@ + data_debug(*h) + ", "@ + data_debug(*t) + ")"@,
        Coredata::Error(a) => "Error("@ + data_debug(*a) + ")"@,
        Coredata::Function(f) => "Function("@ + function_debug(f) + ")"@,
        Coredata::Integer(n) => "Integer("@ + integer_text(n as int) + ")"@,
        Coredata::Internal(c) => "Internal("@ + command_debug(c) + ")"@,
        Coredata::Macro(m) => "Macro("@ + macro_debug(m) + ")"@,
        Coredata::Null() => "Null"@,
        Coredata::String(s) => "String("@ + debug_quoted(s@) + ")"@,
        Coredata::Symbol(s) => "Symbol("@ + debug_quoted(s@) + ")"@,
        Coredata::Table(t) => "Table(["@ + table_debug(t@, t@.len() as int) + "])"@,
    }
}

/// The Debug forms of the first `n` entries of a table, as pairs separated by
/// `, `.
pub open spec fn table_debug(t: Seq<(Symbol, Statement)>, n: int) -> Seq<char>
    decreases t, n,
{
    if n <= 0 || n > t.len() {
        Seq::<char>::empty()
    } else {
        let entry = "("@ + debug_quoted(t[n - 1].0@) + ", "@ + data_debug(*t[n - 1].1) + ")"@;
        if n == 1 {
            entry
        } else {
            table_debug(t, n - 1) + ", "@ + entry
        }
    }
}

/// The Debug forms of the first `n` statements of a piece of code, last one
/// first, each after a space.
pub open spec fn debug_listing(code: Seq<Statement>, n: int) -> Seq<char>
    decreases code, n,
{
    if n <= 0 || n > code.len() {
        Seq::<char>::empty()
    } else {
        " "@ + data_debug(*code[n - 1]) + debug_listing(code, n - 1)
    }
}

/// A function as a programmer inspecting it sees it: a native function by its
/// name; another as `(fn (params) code...)`, with each parameter and each
/// statement in Debug form, the last statement first.
pub open spec fn function_debug(f: Function) -> Seq<char>
    decreases f, 0int,
{
    match f {
        Function::Builtin(_, name) => name@,
        Function::Library(params, code) => "(fn ("@ + quoted_join(names_view(params@), " "@)
            + ")"@ + debug_listing(code@, code@.len() as int) + ")"@,
    }
}

/// The printed forms of the first `n` statements of a piece of code, last one
/// first, each after a space.
pub open spec fn code_listing(code: Seq<Statement>, n: int) -> Seq<char>
    decreases n,
{
    if n <= 0 || n > code.len() {
        Seq::<char>::empty()
    } else {
        " "@ + printed(*code[n - 1]) + code_listing(code, n - 1)
    }
}

/// A macro as a programmer inspecting it sees it: a native macro by its name;
/// another as `(macro param code...)`, with the parameter in Debug form and
/// each statement in its printed form, the last statement first.
pub open spec fn macro_debug(m: Macro) -> Seq<char> {
    match m {
        Macro::Builtin(_, name) => name@,
        Macro::Library(param, code) => "(macro "@ + debug_quoted(param@) + code_listing(
            code@,
            code@.len() as int,
        ) + ")"@,
    }
}

/// A macro's code is listed last statement first: the listing is the printed
/// forms of the statements in reverse order, each after a space.
pub proof fn law_code_listing_last_first(code: Seq<Statement>)
    ensures
        code_listing(code, code.len() as int) == code.reverse().map_values(
            |s: Statement| " "@ + printed(*s),
        ).flatten(),
{
    lemma_code_listing_reversed(code, code.len() as int);
    assert(code.take(code.len() as int) =~= code);
}

proof fn lemma_code_listing_reversed(code: Seq<Statement>, n: int)
    requires
        0 <= n <= code.len(),
    ensures
        code_listing(code, n) == code.take(n).reverse().map_values(|s: Statement| " "@ + printed(*s)).flatten(),
    decreases n,
{
    let f = |s: Statement| " "@ + printed(*s);
    let m = code.take(n).reverse().map_values(f);
    if n == 0 {
        assert(m.len() == 0);
    } else {
        lemma_code_listing_reversed(code, n - 1);
        assert(m.first() == f(code[n - 1]));
        assert(m.drop_first() =~= code.take(n - 1).reverse().map_values(f));
    }
}

/// A function's code is listed last statement first: the listing is the Debug
/// forms of the statements in reverse order, each after a space.
pub proof fn law_debug_listing_last_first(code: Seq<Statement>)
    ensures
        debug_listing(code, code.len() as int) == code.reverse().map_values(
            |s: Statement| " "@ + data_debug(*s),
        ).flatten(),
{
    lemma_debug_listing_reversed(code, code.len() as int);
    assert(code.take(code.len() as int) =~= code);
}

proof fn lemma_debug_listing_reversed(code: Seq<Statement>, n: int)
    requires
        0 <= n <= code.len(),
    ensures
        debug_listing(code, n) == code.take(n).reverse().map_values(|s: Statement| " "@ + data_debug(*s)).flatten(),
    decreases n,
{
    let f = |s: Statement| " "@ + data_debug(*s);
    let m = code.take(n).reverse().map_values(f);
    if n == 0 {
        assert(m.len() == 0);
    } else {
        lemma_debug_listing_reversed(code, n - 1);
        assert(m.first() == f(code[n - 1]));
        assert(m.drop_first() =~= code.take(n - 1).reverse().map_values(f));
    }
}

fn push_bool(out: &mut String, b: bool)
    ensures
        final(out)@ == old(out)@ + bool_text(b),
{
    if b {
        out.append("true");
    } else {
        out.append("false");
    }
}

fn push_place(out: &mut String, place: &Option<Source>)
    ensures
        final(out)@ == old(out)@ + place_debug(*place),
{
    match place {
        None => out.append("None"),
        Some(s) => {
            out.append("Some(");
            out.append("Source { line: ");
            push_decimal(out, s.line as u128);
            out.append(", column: ");
            push_decimal(out, s.column as u128);
            out.append(", source: ");
            push_quoted(out, s.source.as_str());
            out.append(" }");
            out.append(")");
            proof {
                assert(out@ =~= old(out)@ + place_debug(*place));
            }
        },
    }
}

/// Appends the Debug forms of the names, separated by `sep`.
fn push_quoted_join(out: &mut String, names: &Vec<Symbol>, sep: &str)
    ensures
        final(out)@ == old(out)@ + quoted_join(names_view(names@), sep@),
{
    let ghost views = names_view(names@);
    let n = names.len();
    let mut i: usize = 0;
    while i < n
        invariant
            n == names@.len(),
            views == names_view(names@),
            i <= n,
            out@ == old(out)@ + quoted_join(views.take(i as int), sep@),
        decreases n - i,
    {
        if i > 0 {
            out.append(sep);
        }
        push_quoted(out, names[i].as_str());
        proof {
            let t = views.take(i + 1);
            assert(t.drop_last() =~= views.take(i as int));
            assert(t.last() == names@[i as int]@);
            if i == 0 {
                assert(t.len() == 1);
                assert(quoted_join(views.take(0), sep@) =~= Seq::<char>::empty());
            }
            assert(out@ =~= old(out)@ + quoted_join(t, sep@));
        }
        i = i + 1;
    }
    proof {
        assert(views.take(n as int) =~= views);
    }
}

fn push_command(out: &mut String, c: &Commands)
    ensures
        final(out)@ == old(out)@ + command_debug(*c),
{
    match c {
        Commands::Call(n) => {
            out.append("Call(");
            push_decimal(out, *n as u128);
            out.append(")");
        },
        Commands::Deparize(d) => {
            out.append("Deparize(Deparize { arguments: [");
            push_quoted_join(out, d.names(), ", ");
            out.append("] })");
        },
        Commands::Wind => out.append("Wind"),
    }
    proof {
        assert(out@ =~= old(out)@ + command_debug(*c));
    }
}

/// Appends the Debug form of a value.
fn push_data_debug(out: &mut String, d: &Sourcedata)
    ensures
        final(out)@ == old(out)@ + data_debug(*d),
    decreases *d, 1int,
{
    out.append("Sourcedata(");
    push_place(out, &d.0);
    out.append(", ");
    push_core_debug(out, &d.1);
    out.append(")");
    proof {
        reveal(core_debug);
        assert(out@ =~= old(out)@ + data_debug(*d));
    }
}

/// Appends the Debug form of the core of a value.
#[verifier::spinoff_prover]
#[verifier::rlimit(40)]
fn push_core_debug(out: &mut String, c: &Coredata)
    ensures
        final(out)@ == old(out)@ + core_debug(*c),
    decreases *c, 0int,
{
    match *c {
        Coredata::Boolean(b) => {
            out.append("Boolean(");
            push_bool(out, b);
            out.append(")");
        },
        Coredata::Cell(ref h, ref t) => {
            out.append("Cell(");
            push_data_debug(out, &**h);
            out.append(", ");
            push_data_debug(out, &**t);
            out.append(")");
        },
        Coredata::Error(ref a) => {
            out.append("Error(");
            push_data_debug(out, &**a);
            out.append(")");
        },
        Coredata::Function(ref f) => {
            out.append("Function(");
            push_function_debug(out, f);
            out.append(")");
        },
        Coredata::Integer(n) => {
            out.append("Integer(");
            push_integer(out, n);
            out.append(")");
        },
        Coredata::Internal(ref c) => {
            out.append("Internal(");
            push_command(out, c);
            out.append(")");
        },
        Coredata::Macro(ref m) => {
            out.append("Macro(");
            let text = m.debug_text();
            out.append(text.as_str());
            out.append(")");
        },
        Coredata::Null() => {
            out.append("Null");
        },
        Coredata::String(ref s) => {
            out.append("String(");
            push_quoted(out, s.as_str());
            out.append(")");
        },
        Coredata::Symbol(ref s) => {
            out.append("Symbol(");
            push_quoted(out, s.as_str());
            out.append(")");
        },
        Coredata::Table(ref t) => {
            out.append("Table([");
            push_table_debug(out, t);
            out.append("])");
        },
    }
    proof {
        reveal(core_debug);
        assert(out@ =~= old(out)@ + core_debug(*c));
    }
}

fn push_table_debug(out: &mut String, t: &Vec<(Symbol, Statement)>)
    ensures
        final(out)@ == old(out)@ + table_debug(t@, t@.len() as int),
    decreases t@, 1int,
{
    let n = t.len();
    let mut i: usize = 0;
    while i < n
        invariant
            n == t@.len(),
            i <= n,
            out@ == old(out)@ + table_debug(t@, i as int),
        decreases n - i,
    {
        if i > 0 {
            out.append(", ");
        }
        out.append("(");
        push_quoted(out, t[i].0.as_str());
        out.append(", ");
        push_data_debug(out, &*t[i].1);
        out.append(")");
        proof {
            assert(out@ =~= old(out)@ + table_debug(t@, i + 1));
        }
        i = i + 1;
    }
}

fn push_debug_listing(out: &mut String, code: &Vec<Statement>)
    ensures
        final(out)@ == old(out)@ + debug_listing(code@, code@.len() as int),
    decreases code@, 1int,
{
    let n = code.len();
    let mut k = n;
    while k > 0
        invariant
            k <= n,
            n == code@.len(),
            old(out)@ + debug_listing(code@, n as int) == out@ + debug_listing(code@, k as int),
        decreases k,
    {
        let ghost before = out@;
        out.append(" ");
        push_data_debug(out, &*code[k - 1]);
        proof {
            assert(before + debug_listing(code@, k as int) =~= out@ + debug_listing(
                code@,
                k - 1,
            ));
        }
        k = k - 1;
    }
    proof {
        assert(out@ =~= out@ + debug_listing(code@, 0));
    }
}

fn push_function_debug(out: &mut String, f: &Function)
    ensures
        final(out)@ == old(out)@ + function_debug(*f),
    decreases *f, 0int,
{
    match f {
        Function::Builtin(.., name) => out.append(name.as_str()),
        Function::Library(params, code) => {
            out.append("(fn (");
            push_quoted_join(out, params, " ");
            out.append(")");
            push_debug_listing(out, code);
            out.append(")");
        },
    }
    proof {
        assert(out@ =~= old(out)@ + function_debug(*f));
    }
}

fn push_code_listing(out: &mut String, code: &Vec<Statement>)
    ensures
        final(out)@ == old(out)@ + code_listing(code@, code@.len() as int),
{
    let n = code.len();
    let mut k = n;
    while k > 0
        invariant
            k <= n,
            n == code@.len(),
            old(out)@ + code_listing(code@, n as int) == out@ + code_listing(code@, k as int),
        decreases k,
    {
        let ghost before = out@;
        out.append(" ");
        let text = code[k - 1].to_string();
        out.append(text.as_str());
        proof {
            assert(before + code_listing(code@, k as int) =~= out@ + code_listing(
                code@,
                k - 1,
            ));
        }
        k = k - 1;
    }
    proof {
        assert(out@ =~= out@ + code_listing(code@, 0));
    }
}

impl Function {
    /// The text a programmer inspecting the function sees.
    pub fn debug_text(&self) -> (r: String)
        ensures
            r@ == function_debug(*self),
    {
        let mut out = String::new();
        push_function_debug(&mut out, self);
        proof {
            assert(out@ =~= function_debug(*self));
        }
        out
    }
}

impl Macro {
    /// The text a programmer inspecting the macro sees.
    pub fn debug_text(&self) -> (r: String)
        ensures
            r@ == macro_debug(*self),
    {
        match *self {
            Macro::Builtin(.., ref name) => name.clone(),
            Macro::Library(ref param, ref code) => {
                let mut out = "(macro ".to_owned();
                push_quoted(&mut out, param.as_str());
                push_code_listing(&mut out, code);
                out.append(")");
                proof {
                    assert(out@ =~= macro_debug(*self));
                }
                out
            },
        }
    }
}

} // verus!
