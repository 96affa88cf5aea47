//! Reading printed values back: on values made of booleans, integers, strings,
//! null, errors and proper lists, the printed form decides the value.
use vstd::prelude::*;

use crate::data::{pointee, Coredata, Function, Sourcedata, Statement, Symbol};
use crate::env::names_view;
use crate::equality::{code_eq, core_eq};
use crate::render::{joined, lemma_joined_views, printed, render, render_code, spacing, Context};
use crate::text::{
    integer_text, is_digit, lemma_integer_text_chars, lemma_integer_text_split,
    lemma_integer_text_start, lemma_string_text_split, string_text,
};

verus! {

/// A value made of booleans, integers, strings, null, errors and proper lists.
pub open spec fn plain(d: Sourcedata) -> bool
    decreases d,
{
    match d.1 {
        Coredata::Boolean(_) | Coredata::Integer(_) | Coredata::String(_) | Coredata::Null() => true,
        Coredata::Error(a) => plain(*a),
        Coredata::Cell(h, t) => plain(*h) && plain_list(*t),
        _ => false,
    }
}

/// The rest of a proper list whose items are `plain`.
pub open spec fn plain_list(t: Sourcedata) -> bool
    decreases t,
{
    match t.1 {
        Coredata::Null() => true,
        Coredata::Cell(h, rest) => plain(*h) && plain_list(*rest),
        _ => false,
    }
}

/// The printed form of a `plain` value.
spec fn plain_text(d: Sourcedata) -> Seq<char>
    decreases d,
{
    match d.1 {
        Coredata::Boolean(b) => if b {
            "true"@
        } else {
            "false"@
        },
        Coredata::Integer(n) => integer_text(n as int),
        Coredata::String(s) => string_text(s@),
        Coredata::Null() => "()"@,
        Coredata::Error(a) => if a.1 is Null {
            "(error"@ + ")"@
        } else {
            "(error"@ + " "@ + plain_text(*a) + ")"@
        },
        Coredata::Cell(h, t) => "(list "@ + plain_text(*h) + plain_tail(*t) + ")"@,
        _ => Seq::<char>::empty(),
    }
}

/// The items of the rest of a list, each after a space.
spec fn plain_tail(t: Sourcedata) -> Seq<char>
    decreases t,
{
    match t.1 {
        Coredata::Cell(h, rest) => " "@ + plain_text(*h) + plain_tail(*rest),
        _ => Seq::<char>::empty(),
    }
}

/// What may follow a printed value inside a larger printed form.
spec fn delimited(x: Seq<char>) -> bool {
    x.len() == 0 || x[0] == ' ' || x[0] == ')'
}

proof fn lemma_render_plain(d: Sourcedata, sp: bool)
    requires
        plain(d),
    ensures
        render(d, Context::TopLevel, sp) == (spacing(sp) + plain_text(d), true),
    decreases d,
{
    reveal(render);
    match d.1 {
        Coredata::Error(a) => {
            if !(pointee(&a).1 is Null) {
                lemma_render_plain(pointee(&a), true);
            }
        },
        Coredata::Cell(h, t) => {
            lemma_render_plain(pointee(&h), false);
            lemma_render_tail(pointee(&t));
            assert(spacing(false) + plain_text(*h) =~= plain_text(*h));
        },
        _ => {},
    }
}

proof fn lemma_render_tail(t: Sourcedata)
    requires
        plain_list(t),
    ensures
        render(t, Context::Cell, true) == (plain_tail(t), true),
    decreases t,
{
    reveal(render);
    match t.1 {
        Coredata::Cell(h, rest) => {
            lemma_render_plain(pointee(&h), false);
            lemma_render_tail(pointee(&rest));
            assert(spacing(false) + plain_text(*h) =~= plain_text(*h));
            assert(spacing(true) + Seq::<char>::empty() + plain_text(*h) + plain_tail(*rest)
                + Seq::<char>::empty() =~= plain_tail(t));
        },
        _ => {},
    }
}

/// How the printed form of a `plain` value begins, by its kind.
proof fn lemma_plain_start(d: Sourcedata)
    requires
        plain(d),
    ensures
        plain_text(d).len() >= 1,
        d.1 is Boolean ==> plain_text(d)[0] == 't' || plain_text(d)[0] == 'f',
        d.1 matches Coredata::Boolean(b) ==> (plain_text(d)[0] == 't' <==> b),
        d.1 is Integer ==> plain_text(d)[0] == '-' || is_digit(plain_text(d)[0]),
        !(d.1 is Boolean) && !(d.1 is Integer) ==> plain_text(d).len() >= 2 && plain_text(d)[0]
            == '(',
        d.1 is String ==> plain_text(d)[1] == '"',
        d.1 is Null ==> plain_text(d)[1] == ')',
        d.1 is Error ==> plain_text(d)[1] == 'e',
        d.1 is Cell ==> plain_text(d)[1] == 'l',
{
    reveal_strlit("true");
    reveal_strlit("false");
    reveal_strlit("()");
    reveal_strlit("(error");
    reveal_strlit("(list ");
    reveal_strlit("(\"");
    match d.1 {
        Coredata::Integer(n) => {
            lemma_integer_text_start(n as int);
        },
        _ => {},
    }
}

proof fn lemma_tail_start(t: Sourcedata)
    requires
        plain_list(t),
    ensures
        t.1 is Null || t.1 is Cell,
        t.1 is Null ==> plain_tail(t).len() == 0,
        t.1 is Cell ==> plain_tail(t).len() >= 1 && plain_tail(t)[0] == ' ',
{
    reveal_strlit(" ");
}

/// The kind of a `plain` value, as its printed form shows it.
spec fn plain_kind(c: Coredata) -> int {
    match c {
        Coredata::Boolean(_) => 0,
        Coredata::Integer(_) => 1,
        Coredata::String(_) => 2,
        Coredata::Null() => 3,
        Coredata::Error(_) => 4,
        _ => 5,
    }
}

/// Two `plain` values whose printed forms begin a text alike are of one kind.
proof fn lemma_plain_kind(a: Sourcedata, b: Sourcedata, x: Seq<char>, y: Seq<char>)
    requires
        plain(a),
        plain(b),
        plain_text(a) + x == plain_text(b) + y,
    ensures
        plain_kind(a.1) == plain_kind(b.1),
{
    lemma_plain_start(a);
    lemma_plain_start(b);
    let t = plain_text(a) + x;
    assert(t[0] == plain_text(a)[0]);
    assert(t[0] == plain_text(b)[0]);
    if plain_text(a).len() >= 2 && plain_text(b).len() >= 2 {
        assert(t[1] == plain_text(a)[1]);
        assert(t[1] == plain_text(b)[1]);
    }
    assert(!is_digit('t') && !is_digit('f') && !is_digit('('));
}

/// A `plain` value is read back unambiguously from what follows it.
proof fn lemma_plain_split(a: Sourcedata, b: Sourcedata, x: Seq<char>, y: Seq<char>)
    requires
        plain(a),
        plain(b),
        plain_text(a) + x == plain_text(b) + y,
        delimited(x),
        delimited(y),
    ensures
        core_eq(a.1, b.1),
        x == y,
    decreases a, 1int,
{
    lemma_plain_kind(a, b, x, y);
    if a.1 is Error {
        lemma_error_split(a, b, x, y);
    } else if a.1 is Cell {
        lemma_cell_split(a, b, x, y);
    } else {
        lemma_atom_split(a, b, x, y);
    }
}

/// The case of booleans, integers, strings and null.
proof fn lemma_atom_split(a: Sourcedata, b: Sourcedata, x: Seq<char>, y: Seq<char>)
    requires
        plain(a),
        plain(b),
        plain_kind(a.1) == plain_kind(b.1),
        !(a.1 is Error) && !(a.1 is Cell),
        plain_text(a) + x == plain_text(b) + y,
        delimited(x),
        delimited(y),
    ensures
        core_eq(a.1, b.1),
        x == y,
{
    reveal_strlit("()");
    let t = plain_text(a) + x;
    match (a.1, b.1) {
        (Coredata::Boolean(p), Coredata::Boolean(q)) => {
            reveal_strlit("true");
            reveal_strlit("false");
            let n = plain_text(a).len() as int;
            lemma_plain_start(a);
            lemma_plain_start(b);
            assert(t[0] == plain_text(a)[0]);
            assert(t[0] == plain_text(b)[0]);
            assert(p == q);
            assert(x =~= t.skip(n));
            assert(y =~= t.skip(n));
        },
        (Coredata::Integer(p), Coredata::Integer(q)) => {
            assert(!is_digit(' ') && !is_digit(')'));
            lemma_integer_text_split(p as int, q as int, x, y);
        },
        (Coredata::String(p), Coredata::String(q)) => {
            lemma_string_text_split(p@, q@, x, y);
        },
        (Coredata::Null(), Coredata::Null()) => {
            assert(x =~= t.skip(2));
            assert(y =~= t.skip(2));
        },
        _ => {},
    }
}

/// The case of errors.
proof fn lemma_error_split(a: Sourcedata, b: Sourcedata, x: Seq<char>, y: Seq<char>)
    requires
        plain(a),
        plain(b),
        a.1 is Error,
        b.1 is Error,
        plain_text(a) + x == plain_text(b) + y,
        delimited(x),
        delimited(y),
    ensures
        core_eq(a.1, b.1),
        x == y,
    decreases a, 0int,
{
    reveal_strlit("(error");
    reveal_strlit(")");
    reveal_strlit(" ");
    let t = plain_text(a) + x;
    match (a.1, b.1) {
        (Coredata::Error(p), Coredata::Error(q)) => {
            let pa = pointee(&p);
            let qa = pointee(&q);
            if pa.1 is Null && qa.1 is Null {
                assert(core_eq(pa.1, qa.1));
                assert(x =~= t.skip(7));
                assert(y =~= t.skip(7));
            } else if pa.1 is Null {
                assert(t[6] == ')');
                assert(t[6] == ' ');
            } else if qa.1 is Null {
                assert(t[6] == ' ');
                assert(t[6] == ')');
            } else {
                let x1 = ")"@ + x;
                let y1 = ")"@ + y;
                assert(t.skip(7) =~= plain_text(pa) + x1);
                assert(t.skip(7) =~= plain_text(qa) + y1);
                lemma_plain_split(pa, qa, x1, y1);
                assert(x =~= x1.drop_first());
                assert(y =~= y1.drop_first());
            }
        },
        _ => {},
    }
}

/// The case of lists.
proof fn lemma_cell_split(a: Sourcedata, b: Sourcedata, x: Seq<char>, y: Seq<char>)
    requires
        plain(a),
        plain(b),
        a.1 is Cell,
        b.1 is Cell,
        plain_text(a) + x == plain_text(b) + y,
        delimited(x),
        delimited(y),
    ensures
        core_eq(a.1, b.1),
        x == y,
    decreases a, 0int,
{
    reveal_strlit("(list ");
    reveal_strlit(")");
    let t = plain_text(a) + x;
    match (a.1, b.1) {
        (Coredata::Cell(h1, t1), Coredata::Cell(h2, t2)) => {
            let ha = pointee(&h1);
            let hb = pointee(&h2);
            let ta = pointee(&t1);
            let tb = pointee(&t2);
            lemma_tail_start(ta);
            lemma_tail_start(tb);
            let x1 = plain_tail(ta) + ")"@ + x;
            let y1 = plain_tail(tb) + ")"@ + y;
            assert(t.skip(6) =~= plain_text(ha) + x1);
            assert(t.skip(6) =~= plain_text(hb) + y1);
            if ta.1 is Null {
                assert(x1[0] == ')');
            } else {
                assert(x1[0] == plain_tail(ta)[0]);
            }
            if tb.1 is Null {
                assert(y1[0] == ')');
            } else {
                assert(y1[0] == plain_tail(tb)[0]);
            }
            lemma_plain_split(ha, hb, x1, y1);
            lemma_tail_split(ta, tb, x, y);
        },
        _ => {},
    }
}

/// The rest of a list of `plain` values, with the list's closing bracket, is
/// read back unambiguously from what follows it.
proof fn lemma_tail_split(a: Sourcedata, b: Sourcedata, x: Seq<char>, y: Seq<char>)
    requires
        plain_list(a),
        plain_list(b),
        plain_tail(a) + ")"@ + x == plain_tail(b) + ")"@ + y,
    ensures
        core_eq(a.1, b.1),
        x == y,
    decreases a, 2int,
{
    reveal_strlit(")");
    reveal_strlit(" ");
    lemma_tail_start(a);
    lemma_tail_start(b);
    let t = plain_tail(a) + ")"@ + x;
    match (a.1, b.1) {
        (Coredata::Null(), Coredata::Null()) => {
            assert(x =~= t.skip(1));
            assert(y =~= t.skip(1));
        },
        (Coredata::Cell(h1, r1), Coredata::Cell(h2, r2)) => {
            let ha = pointee(&h1);
            let hb = pointee(&h2);
            let ra = pointee(&r1);
            let rb = pointee(&r2);
            lemma_tail_start(ra);
            lemma_tail_start(rb);
            let x1 = plain_tail(ra) + ")"@ + x;
            let y1 = plain_tail(rb) + ")"@ + y;
            assert(t.skip(1) =~= plain_text(ha) + x1);
            assert(t.skip(1) =~= plain_text(hb) + y1);
            if ra.1 is Null {
                assert(x1[0] == ')');
            } else {
                assert(x1[0] == plain_tail(ra)[0]);
            }
            if rb.1 is Null {
                assert(y1[0] == ')');
            } else {
                assert(y1[0] == plain_tail(rb)[0]);
            }
            lemma_plain_split(ha, hb, x1, y1);
            lemma_tail_split(ra, rb, x, y);
        },
        (Coredata::Null(), _) => {
            assert(t[0] == ')');
        },
        (_, Coredata::Null()) => {
            assert(t[0] == ' ');
        },
        _ => {},
    }
}

/// The printed form reads back: two values made of booleans, integers,
/// strings, null, errors and proper lists that print alike are equal.
pub proof fn law_plain_values_read_back(a: Sourcedata, b: Sourcedata)
    requires
        plain(a),
        plain(b),
        printed(a) == printed(b),
    ensures
        core_eq(a.1, b.1),
{
    lemma_render_plain(a, false);
    lemma_render_plain(b, false);
    assert(spacing(false) + plain_text(a) =~= plain_text(a) + Seq::<char>::empty());
    assert(spacing(false) + plain_text(b) =~= plain_text(b) + Seq::<char>::empty());
    lemma_plain_split(a, b, Seq::<char>::empty(), Seq::<char>::empty());
}

/// A character that a bare word of code can hold: no space and no bracket.
spec fn word_char(c: char) -> bool {
    c != ' ' && c != '(' && c != ')'
}

/// A name that, written bare in code, reads back as that symbol: a non-empty
/// word that does not begin with `"` and is not a boolean or an integer.
pub open spec fn code_name(s: Seq<char>) -> bool {
    &&& s.len() > 0
    &&& s[0] != '"'
    &&& forall|k: int| 0 <= k < s.len() ==> #[trigger] s[k] != ' ' && s[k] != '(' && s[k] != ')'
    &&& s != "true"@
    &&& s != "false"@
    &&& forall|n: int| s != #[trigger] integer_text(n)
}

/// A statement made of booleans, integers, strings, null, symbols with
/// `code_name`s and calls whose arguments are such statements.
pub open spec fn plain_code(d: Sourcedata) -> bool
    decreases d,
{
    match d.1 {
        Coredata::Boolean(_) | Coredata::Integer(_) | Coredata::String(_) | Coredata::Null() => true,
        Coredata::Symbol(s) => code_name(s@),
        Coredata::Cell(h, t) => plain_code(*h) && plain_code_list(*t),
        _ => false,
    }
}

/// The rest of a call whose arguments are `plain_code`.
pub open spec fn plain_code_list(t: Sourcedata) -> bool
    decreases t,
{
    match t.1 {
        Coredata::Null() => true,
        Coredata::Cell(h, rest) => plain_code(*h) && plain_code_list(*rest),
        _ => false,
    }
}

/// Whether the first `n` statements of a piece of code are `plain_code`.
pub open spec fn plain_statements(code: Seq<Statement>, n: int) -> bool {
    forall|i: int| 0 <= i < n ==> plain_code(#[trigger] *code[i])
}

/// How a `plain_code` statement is written.
spec fn code_text(d: Sourcedata) -> Seq<char>
    decreases d,
{
    match d.1 {
        Coredata::Boolean(b) => if b {
            "true"@
        } else {
            "false"@
        },
        Coredata::Integer(n) => integer_text(n as int),
        Coredata::String(s) => string_text(s@),
        Coredata::Null() => "()"@,
        Coredata::Symbol(s) => s@,
        Coredata::Cell(h, t) => "("@ + code_text(*h) + code_tail(*t) + ")"@,
        _ => Seq::<char>::empty(),
    }
}

/// The arguments of a call, each after a space.
spec fn code_tail(t: Sourcedata) -> Seq<char>
    decreases t,
{
    match t.1 {
        Coredata::Cell(h, rest) => " "@ + code_text(*h) + code_tail(*rest),
        _ => Seq::<char>::empty(),
    }
}

/// The first `n` statements of a piece of code, last one first, each after a
/// space.
spec fn code_seq_text(code: Seq<Statement>, n: int) -> Seq<char>
    decreases n,
{
    if n <= 0 || n > code.len() {
        Seq::<char>::empty()
    } else {
        " "@ + code_text(*code[n - 1]) + code_seq_text(code, n - 1)
    }
}

proof fn lemma_render_code_value(d: Sourcedata, sp: bool)
    requires
        plain_code(d),
    ensures
        render(d, Context::Run, sp) == (spacing(sp) + code_text(d), true),
    decreases d,
{
    reveal(render);
    match d.1 {
        Coredata::Cell(h, t) => {
            lemma_render_code_value(pointee(&h), false);
            lemma_render_code_tail(pointee(&t));
            assert(spacing(false) + code_text(*h) =~= code_text(*h));
        },
        _ => {},
    }
}

proof fn lemma_render_code_tail(t: Sourcedata)
    requires
        plain_code_list(t),
    ensures
        render(t, Context::Runnable, true) == (code_tail(t), true),
    decreases t,
{
    reveal(render);
    match t.1 {
        Coredata::Cell(h, rest) => {
            lemma_render_code_value(pointee(&h), false);
            lemma_render_code_tail(pointee(&rest));
            assert(spacing(false) + code_text(*h) =~= code_text(*h));
            assert(spacing(true) + Seq::<char>::empty() + code_text(*h) + code_tail(*rest)
                + Seq::<char>::empty() =~= code_tail(t));
        },
        _ => {},
    }
}

proof fn lemma_render_code_seq(code: Seq<Statement>, n: int)
    requires
        0 <= n <= code.len(),
        plain_statements(code, n),
    ensures
        render_code(code, n, true) == (code_seq_text(code, n), true),
    decreases n,
{
    reveal(render);
    if n > 0 {
        assert(plain_code(*code[n - 1]));
        lemma_render_code_value(pointee(&code[n - 1]), true);
        assert(plain_statements(code, n - 1));
        lemma_render_code_seq(code, n - 1);
    }
}

/// Whether a statement is written as a bare word.
spec fn is_word(d: Sourcedata) -> bool {
    d.1 is Boolean || d.1 is Integer || d.1 is Symbol
}

proof fn lemma_code_start(d: Sourcedata)
    requires
        plain_code(d),
    ensures
        code_text(d).len() >= 1,
        is_word(d) ==> forall|k: int|
            0 <= k < code_text(d).len() ==> word_char(#[trigger] code_text(d)[k]),
        is_word(d) ==> code_text(d)[0] != '"',
        !is_word(d) ==> code_text(d).len() >= 2 && code_text(d)[0] == '(',
        d.1 is String ==> code_text(d)[1] == '"',
        d.1 is Null ==> code_text(d)[1] == ')',
        d.1 is Cell ==> code_text(d)[1] != '"' && code_text(d)[1] != ')',
    decreases d,
{
    reveal_strlit("true");
    reveal_strlit("false");
    reveal_strlit("()");
    reveal_strlit("(");
    reveal_strlit("(\"");
    match d.1 {
        Coredata::Integer(n) => {
            lemma_integer_text_start(n as int);
            lemma_integer_text_chars(n as int);
        },
        Coredata::Cell(h, t) => {
            let hd = pointee(&h);
            lemma_code_start(hd);
            let tx = code_text(d);
            assert(tx[1] == code_text(hd)[0]);
            if is_word(hd) {
                assert(word_char(code_text(hd)[0]));
            }
        },
        _ => {},
    }
}

proof fn lemma_code_tail_start(t: Sourcedata)
    requires
        plain_code_list(t),
    ensures
        t.1 is Null || t.1 is Cell,
        t.1 is Null ==> code_tail(t).len() == 0,
        t.1 is Cell ==> code_tail(t).len() >= 1 && code_tail(t)[0] == ' ',
{
    reveal_strlit(" ");
}

/// Two words followed by a space, a bracket or nothing are read back alike
/// only where they are the same word.
proof fn lemma_word_split(w1: Seq<char>, w2: Seq<char>, x: Seq<char>, y: Seq<char>)
    requires
        w1 + x == w2 + y,
        forall|k: int| 0 <= k < w1.len() ==> word_char(#[trigger] w1[k]),
        forall|k: int| 0 <= k < w2.len() ==> word_char(#[trigger] w2[k]),
        delimited(x),
        delimited(y),
    ensures
        w1 == w2,
        x == y,
{
    let t = w1 + x;
    if w1.len() < w2.len() {
        assert(t[w1.len() as int] == x[0]);
        assert(t[w1.len() as int] == w2[w1.len() as int]);
    } else if w2.len() < w1.len() {
        assert(t[w2.len() as int] == y[0]);
        assert(t[w2.len() as int] == w1[w2.len() as int]);
    } else {
        assert(w1 =~= t.take(w1.len() as int));
        assert(w2 =~= t.take(w2.len() as int));
        assert(x =~= t.skip(w1.len() as int));
        assert(y =~= t.skip(w2.len() as int));
    }
}

/// The case of statements written as bare words.
proof fn lemma_word_value_split(a: Sourcedata, b: Sourcedata, x: Seq<char>, y: Seq<char>)
    requires
        plain_code(a),
        plain_code(b),
        is_word(a),
        is_word(b),
        code_text(a) + x == code_text(b) + y,
        delimited(x),
        delimited(y),
    ensures
        core_eq(a.1, b.1),
        x == y,
{
    reveal_strlit("true");
    reveal_strlit("false");
    lemma_code_start(a);
    lemma_code_start(b);
    lemma_word_split(code_text(a), code_text(b), x, y);
    let w = code_text(a);
    assert(!is_digit('t') && !is_digit('f'));
    match (a.1, b.1) {
        (Coredata::Integer(p), Coredata::Integer(q)) => {
            assert(integer_text(p as int) + Seq::<char>::empty() =~= integer_text(q as int)
                + Seq::<char>::empty());
            lemma_integer_text_split(p as int, q as int, Seq::<char>::empty(), Seq::<char>::empty());
        },
        (Coredata::Integer(p), Coredata::Boolean(_)) => {
            lemma_integer_text_start(p as int);
        },
        (Coredata::Boolean(_), Coredata::Integer(q)) => {
            lemma_integer_text_start(q as int);
        },
        (Coredata::Boolean(p), Coredata::Boolean(q)) => {
            assert(w[0] == 't' <==> p);
            assert(w[0] == 't' <==> q);
        },
        (Coredata::Symbol(p), Coredata::Integer(q)) => {
            assert(p@ != integer_text(q as int));
        },
        (Coredata::Integer(p), Coredata::Symbol(q)) => {
            assert(q@ != integer_text(p as int));
        },
        _ => {},
    }
}

/// A `plain_code` statement is read back unambiguously from what follows it.
proof fn lemma_code_split(a: Sourcedata, b: Sourcedata, x: Seq<char>, y: Seq<char>)
    requires
        plain_code(a),
        plain_code(b),
        code_text(a) + x == code_text(b) + y,
        delimited(x),
        delimited(y),
    ensures
        core_eq(a.1, b.1),
        x == y,
    decreases a, 1int,
{
    reveal_strlit("()");
    reveal_strlit("(");
    reveal_strlit(")");
    lemma_code_start(a);
    lemma_code_start(b);
    let t = code_text(a) + x;
    assert(t[0] == code_text(a)[0]);
    assert(t[0] == code_text(b)[0]);
    if is_word(a) && is_word(b) {
        lemma_word_value_split(a, b, x, y);
    } else if is_word(a) {
        assert(word_char(code_text(a)[0]));
    } else if is_word(b) {
        assert(word_char(code_text(b)[0]));
    } else {
        assert(t[1] == code_text(a)[1]);
        assert(t[1] == code_text(b)[1]);
        match (a.1, b.1) {
            (Coredata::String(p), Coredata::String(q)) => {
                lemma_string_text_split(p@, q@, x, y);
            },
            (Coredata::Null(), Coredata::Null()) => {
                assert(x =~= t.skip(2));
                assert(y =~= t.skip(2));
            },
            (Coredata::Cell(_, _), Coredata::Cell(_, _)) => {
                lemma_call_split(a, b, x, y);
            },
            _ => {},
        }
    }
}

/// The case of calls.
proof fn lemma_call_split(a: Sourcedata, b: Sourcedata, x: Seq<char>, y: Seq<char>)
    requires
        plain_code(a),
        plain_code(b),
        a.1 is Cell,
        b.1 is Cell,
        code_text(a) + x == code_text(b) + y,
    ensures
        core_eq(a.1, b.1),
        x == y,
    decreases a, 0int,
{
    reveal_strlit("(");
    reveal_strlit(")");
    let t = code_text(a) + x;
    match (a.1, b.1) {
        (Coredata::Cell(h1, t1), Coredata::Cell(h2, t2)) => {
            let ha = pointee(&h1);
            let hb = pointee(&h2);
            let ta = pointee(&t1);
            let tb = pointee(&t2);
            lemma_code_tail_start(ta);
            lemma_code_tail_start(tb);
            let x1 = code_tail(ta) + ")"@ + x;
            let y1 = code_tail(tb) + ")"@ + y;
            assert(t.skip(1) =~= code_text(ha) + x1);
            assert(t.skip(1) =~= code_text(hb) + y1);
            if ta.1 is Null {
                assert(x1[0] == ')');
            } else {
                assert(x1[0] == code_tail(ta)[0]);
            }
            if tb.1 is Null {
                assert(y1[0] == ')');
            } else {
                assert(y1[0] == code_tail(tb)[0]);
            }
            lemma_code_split(ha, hb, x1, y1);
            lemma_code_tail_split(ta, tb, x, y);
        },
        _ => {},
    }
}

/// The arguments of a call, with its closing bracket, are read back
/// unambiguously from what follows them.
proof fn lemma_code_tail_split(a: Sourcedata, b: Sourcedata, x: Seq<char>, y: Seq<char>)
    requires
        plain_code_list(a),
        plain_code_list(b),
        code_tail(a) + ")"@ + x == code_tail(b) + ")"@ + y,
    ensures
        core_eq(a.1, b.1),
        x == y,
    decreases a, 2int,
{
    reveal_strlit(")");
    reveal_strlit(" ");
    lemma_code_tail_start(a);
    lemma_code_tail_start(b);
    let t = code_tail(a) + ")"@ + x;
    match (a.1, b.1) {
        (Coredata::Null(), Coredata::Null()) => {
            assert(x =~= t.skip(1));
            assert(y =~= t.skip(1));
        },
        (Coredata::Cell(h1, r1), Coredata::Cell(h2, r2)) => {
            let ha = pointee(&h1);
            let hb = pointee(&h2);
            let ra = pointee(&r1);
            let rb = pointee(&r2);
            lemma_code_tail_start(ra);
            lemma_code_tail_start(rb);
            let x1 = code_tail(ra) + ")"@ + x;
            let y1 = code_tail(rb) + ")"@ + y;
            assert(t.skip(1) =~= code_text(ha) + x1);
            assert(t.skip(1) =~= code_text(hb) + y1);
            if ra.1 is Null {
                assert(x1[0] == ')');
            } else {
                assert(x1[0] == code_tail(ra)[0]);
            }
            if rb.1 is Null {
                assert(y1[0] == ')');
            } else {
                assert(y1[0] == code_tail(rb)[0]);
            }
            lemma_code_split(ha, hb, x1, y1);
            lemma_code_tail_split(ra, rb, x, y);
        },
        (Coredata::Null(), _) => {
            assert(t[0] == ')');
        },
        (_, Coredata::Null()) => {
            assert(t[0] == ' ');
        },
        _ => {},
    }
}

/// A piece of code, with the bracket that closes it, is read back
/// unambiguously from what follows.
proof fn lemma_code_seq_split(
    c1: Seq<Statement>,
    n1: int,
    c2: Seq<Statement>,
    n2: int,
    x: Seq<char>,
    y: Seq<char>,
)
    requires
        0 <= n1 <= c1.len(),
        0 <= n2 <= c2.len(),
        plain_statements(c1, n1),
        plain_statements(c2, n2),
        code_seq_text(c1, n1) + ")"@ + x == code_seq_text(c2, n2) + ")"@ + y,
    ensures
        n1 == n2,
        x == y,
        forall|i: int| 0 <= i < n1 ==> core_eq(#[trigger] c1[i].1, c2[i].1),
    decreases n1,
{
    reveal_strlit(")");
    reveal_strlit(" ");
    let t = code_seq_text(c1, n1) + ")"@ + x;
    if n1 == 0 && n2 == 0 {
        assert(x =~= t.skip(1));
        assert(y =~= t.skip(1));
    } else if n1 == 0 {
        assert(t[0] == ')');
        assert(t[0] == ' ');
    } else if n2 == 0 {
        assert(t[0] == ' ');
        assert(t[0] == ')');
    } else {
        let a = pointee(&c1[n1 - 1]);
        let b = pointee(&c2[n2 - 1]);
        assert(plain_code(*c1[n1 - 1]));
        assert(plain_code(*c2[n2 - 1]));
        let x1 = code_seq_text(c1, n1 - 1) + ")"@ + x;
        let y1 = code_seq_text(c2, n2 - 1) + ")"@ + y;
        assert(t.skip(1) =~= code_text(a) + x1);
        assert(t.skip(1) =~= code_text(b) + y1);
        if n1 - 1 == 0 {
            assert(x1[0] == ')');
        } else {
            assert(x1[0] == code_seq_text(c1, n1 - 1)[0]);
        }
        if n2 - 1 == 0 {
            assert(y1[0] == ')');
        } else {
            assert(y1[0] == code_seq_text(c2, n2 - 1)[0]);
        }
        lemma_code_split(a, b, x1, y1);
        assert(plain_statements(c1, n1 - 1));
        assert(plain_statements(c2, n2 - 1));
        lemma_code_seq_split(c1, n1 - 1, c2, n2 - 1, x, y);
    }
}

proof fn lemma_code_eq_from_pairs(c1: Seq<Statement>, c2: Seq<Statement>, n: int)
    requires
        c1.len() == c2.len(),
        0 <= n <= c1.len(),
        forall|i: int| 0 <= i < n ==> core_eq(#[trigger] c1[i].1, c2[i].1),
    ensures
        code_eq(c1, c2, n),
    decreases n,
{
    if n > 0 {
        assert(core_eq(c1[n - 1].1, c2[n - 1].1));
        lemma_code_eq_from_pairs(c1, c2, n - 1);
    }
}

/// Printed code reads back: two pieces of code whose statements are made of
/// booleans, integers, strings, null, symbols with `code_name`s and calls, and
/// that are written alike, are equal statement by statement. In particular a
/// null argument, written `()`, never vanishes from a call.
pub proof fn law_code_reads_back(c1: Seq<Statement>, c2: Seq<Statement>)
    requires
        plain_statements(c1, c1.len() as int),
        plain_statements(c2, c2.len() as int),
        render_code(c1, c1.len() as int, true).0 == render_code(c2, c2.len() as int, true).0,
    ensures
        c1.len() == c2.len(),
        code_eq(c1, c2, c1.len() as int),
{
    lemma_render_code_seq(c1, c1.len() as int);
    lemma_render_code_seq(c2, c2.len() as int);
    let e = Seq::<char>::empty();
    assert(code_seq_text(c1, c1.len() as int) + ")"@ + e =~= code_seq_text(c2, c2.len() as int)
        + ")"@ + e);
    lemma_code_seq_split(c1, c1.len() as int, c2, c2.len() as int, e, e);
    lemma_code_eq_from_pairs(c1, c2, c1.len() as int);
}

/// Two functions with the same parameter names whose statements are
/// `plain_code` print alike only where their code is equal.
pub proof fn law_function_code_reads_back(
    p1: Vec<Symbol>,
    c1: Vec<Statement>,
    p2: Vec<Symbol>,
    c2: Vec<Statement>,
)
    requires
        names_view(p1@) == names_view(p2@),
        plain_statements(c1@, c1@.len() as int),
        plain_statements(c2@, c2@.len() as int),
        printed(Sourcedata(None, Coredata::Function(Function::Library(p1, c1)))) == printed(
            Sourcedata(None, Coredata::Function(Function::Library(p2, c2))),
        ),
    ensures
        core_eq(
            Coredata::Function(Function::Library(p1, c1)),
            Coredata::Function(Function::Library(p2, c2)),
        ),
{
    reveal(render);
    lemma_joined_views(p1@, p2@);
    lemma_render_code_seq(c1@, c1@.len() as int);
    lemma_render_code_seq(c2@, c2@.len() as int);
    let head = spacing(false) + "(function ("@ + joined(p1@) + ")"@;
    let t1 = code_seq_text(c1@, c1@.len() as int);
    let t2 = code_seq_text(c2@, c2@.len() as int);
    let whole = printed(Sourcedata(None, Coredata::Function(Function::Library(p1, c1))));
    assert(whole =~= head + (t1 + ")"@ + Seq::<char>::empty()));
    assert(whole =~= head + (t2 + ")"@ + Seq::<char>::empty()));
    assert(whole.skip(head.len() as int) =~= t1 + ")"@ + Seq::<char>::empty());
    assert(whole.skip(head.len() as int) =~= t2 + ")"@ + Seq::<char>::empty());
    lemma_code_seq_split(
        c1@,
        c1@.len() as int,
        c2@,
        c2@.len() as int,
        Seq::<char>::empty(),
        Seq::<char>::empty(),
    );
    lemma_code_eq_from_pairs(c1@, c2@, c1@.len() as int);
}

} // verus!
