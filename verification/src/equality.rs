//! When two values are the same: by their contents, ignoring where they were
//! written and which native routine a builtin stands for.
use vstd::prelude::*;
use vstd::std_specs::cmp::PartialEqSpecImpl;

use crate::data::{Commands, Coredata, Function, Macro, Sourcedata, Statement, Symbol};
use crate::env::names_view;

verus! {

/// Value equality of two cores.
pub open spec fn core_eq(a: Coredata, b: Coredata) -> bool
    decreases a, 0int,
{
    match (a, b) {
        (Coredata::Boolean(x), Coredata::Boolean(y)) => x == y,
        (Coredata::Cell(h1, t1), Coredata::Cell(h2, t2)) => core_eq(h1.1, h2.1) && core_eq(
            t1.1,
            t2.1,
        ),
        (Coredata::Error(x), Coredata::Error(y)) => core_eq(x.1, y.1),
        (
            Coredata::Function(Function::Builtin(_, n1)),
            Coredata::Function(Function::Builtin(_, n2)),
        ) => n1@ == n2@,
        (
            Coredata::Function(Function::Library(p1, c1)),
            Coredata::Function(Function::Library(p2, c2)),
        ) => names_view(p1@) == names_view(p2@) && code_eq(c1@, c2@, c1@.len() as int),
        (Coredata::Integer(x), Coredata::Integer(y)) => x == y,
        (Coredata::Macro(Macro::Builtin(_, n1)), Coredata::Macro(Macro::Builtin(_, n2))) => n1@
            == n2@,
        (Coredata::Macro(Macro::Library(p1, c1)), Coredata::Macro(Macro::Library(p2, c2))) => p1@
            == p2@ && code_eq(c1@, c2@, c1@.len() as int),
        (Coredata::Internal(x), Coredata::Internal(y)) => commands_eq(x, y),
        (Coredata::Null(), Coredata::Null()) => true,
        (Coredata::String(x), Coredata::String(y)) => x@ == y@,
        (Coredata::Symbol(x), Coredata::Symbol(y)) => x@ == y@,
        (Coredata::Table(x), Coredata::Table(y)) => table_eq(x@, y@, x@.len() as int),
        _ => false,
    }
}

/// Equal lengths, and the first `n` statements pairwise equal.
pub open spec fn code_eq(c1: Seq<Statement>, c2: Seq<Statement>, n: int) -> bool
    decreases c1, n,
{
    if n <= 0 || n > c1.len() {
        c1.len() == c2.len()
    } else {
        c1.len() == c2.len() && core_eq(c1[n - 1].1, c2[n - 1].1) && code_eq(c1, c2, n - 1)
    }
}

/// Equal lengths, and the first `n` entries pairwise equal in name and value.
pub open spec fn table_eq(t1: Seq<(Symbol, Statement)>, t2: Seq<(Symbol, Statement)>, n: int) -> bool
    decreases t1, n,
{
    if n <= 0 || n > t1.len() {
        t1.len() == t2.len()
    } else {
        t1.len() == t2.len() && t1[n - 1].0@ == t2[n - 1].0@ && core_eq(t1[n - 1].1.1, t2[n - 1].1.1)
            && table_eq(t1, t2, n - 1)
    }
}

pub open spec fn commands_eq(a: Commands, b: Commands) -> bool {
    match (a, b) {
        (Commands::Call(x), Commands::Call(y)) => x == y,
        (Commands::Deparize(x), Commands::Deparize(y)) => x@ == y@,
        (Commands::Wind, Commands::Wind) => true,
        _ => false,
    }
}

fn names_equal(a: &Vec<Symbol>, b: &Vec<Symbol>) -> (r: bool)
    ensures
        r == (names_view(a@) == names_view(b@)),
{
    if a.len() != b.len() {
        proof {
            assert(names_view(a@).len() != names_view(b@).len());
        }
        return false;
    }
    let n = a.len();
    let mut i: usize = 0;
    while i < n
        invariant
            n == a.len(),
            n == b.len(),
            i <= n,
            forall|j: int| 0 <= j < i ==> a@[j]@ == b@[j]@,
        decreases n - i,
    {
        if a[i] != b[i] {
            proof {
                assert(names_view(a@)[i as int] != names_view(b@)[i as int]);
            }
            return false;
        }
        i = i + 1;
    }
    proof {
        assert(names_view(a@) =~= names_view(b@));
    }
    true
}

fn commands_equal(a: &Commands, b: &Commands) -> (r: bool)
    ensures
        r == commands_eq(*a, *b),
{
    match (a, b) {
        (Commands::Call(x), Commands::Call(y)) => *x == *y,
        (Commands::Deparize(x), Commands::Deparize(y)) => {
            let r = names_equal(x.names(), y.names());
            r
        },
        (Commands::Wind, Commands::Wind) => true,
        _ => false,
    }
}

/// Decides `core_eq`.
pub fn core_equal(a: &Coredata, b: &Coredata) -> (r: bool)
    ensures
        r == core_eq(*a, *b),
    decreases *a, 0int,
{
    match (a, b) {
        (Coredata::Boolean(x), Coredata::Boolean(y)) => *x == *y,
        (Coredata::Cell(h1, t1), Coredata::Cell(h2, t2)) => {
            core_equal(&h1.1, &h2.1) && core_equal(&t1.1, &t2.1)
        },
        (Coredata::Error(x), Coredata::Error(y)) => core_equal(&x.1, &y.1),
        (
            Coredata::Function(Function::Builtin(_, n1)),
            Coredata::Function(Function::Builtin(_, n2)),
        ) => *n1 == *n2,
        (
            Coredata::Function(Function::Library(p1, c1)),
            Coredata::Function(Function::Library(p2, c2)),
        ) => names_equal(p1, p2) && code_equal(c1, c2),
        (Coredata::Integer(x), Coredata::Integer(y)) => *x == *y,
        (Coredata::Macro(Macro::Builtin(_, n1)), Coredata::Macro(Macro::Builtin(_, n2))) => {
            *n1 == *n2
        },
        (Coredata::Macro(Macro::Library(p1, c1)), Coredata::Macro(Macro::Library(p2, c2))) => {
            *p1 == *p2 && code_equal(c1, c2)
        },
        (Coredata::Internal(x), Coredata::Internal(y)) => commands_equal(x, y),
        (Coredata::Null(), Coredata::Null()) => true,
        (Coredata::String(x), Coredata::String(y)) => *x == *y,
        (Coredata::Symbol(x), Coredata::Symbol(y)) => *x == *y,
        (Coredata::Table(x), Coredata::Table(y)) => table_equal(x, y),
        _ => false,
    }
}

fn code_equal(c1: &Vec<Statement>, c2: &Vec<Statement>) -> (r: bool)
    ensures
        r == code_eq(c1@, c2@, c1@.len() as int),
    decreases c1@, 1int,
{
    if c1.len() != c2.len() {
        proof {
            lemma_code_eq_len(c1@, c2@, c1@.len() as int);
        }
        return false;
    }
    let n = c1.len();
    let mut i: usize = 0;
    while i < n
        invariant
            n == c1.len(),
            n == c2.len(),
            i <= n,
            code_eq(c1@, c2@, i as int),
        decreases n - i,
    {
        if !core_equal(&c1[i].1, &c2[i].1) {
            proof {
                if code_eq(c1@, c2@, n as int) {
                    lemma_code_eq_prefix(c1@, c2@, i + 1, n as int);
                }
            }
            return false;
        }
        i = i + 1;
    }
    true
}

fn table_equal(t1: &Vec<(Symbol, Statement)>, t2: &Vec<(Symbol, Statement)>) -> (r: bool)
    ensures
        r == table_eq(t1@, t2@, t1@.len() as int),
    decreases t1@, 1int,
{
    if t1.len() != t2.len() {
        proof {
            lemma_table_eq_len(t1@, t2@, t1@.len() as int);
        }
        return false;
    }
    let n = t1.len();
    let mut i: usize = 0;
    while i < n
        invariant
            n == t1.len(),
            n == t2.len(),
            i <= n,
            table_eq(t1@, t2@, i as int),
        decreases n - i,
    {
        if t1[i].0 != t2[i].0 || !core_equal(&t1[i].1.1, &t2[i].1.1) {
            proof {
                if table_eq(t1@, t2@, n as int) {
                    lemma_table_eq_prefix(t1@, t2@, i + 1, n as int);
                }
            }
            return false;
        }
        i = i + 1;
    }
    true
}

/// Pieces of code that are equal have the same length.
pub proof fn lemma_code_eq_length(c1: Seq<Statement>, c2: Seq<Statement>, n: int)
    ensures
        code_eq(c1, c2, n) ==> c1.len() == c2.len(),
{
    lemma_code_eq_len(c1, c2, n);
}

proof fn lemma_code_eq_len(c1: Seq<Statement>, c2: Seq<Statement>, n: int)
    ensures
        code_eq(c1, c2, n) ==> c1.len() == c2.len(),
    decreases n,
{
    if 0 < n <= c1.len() {
        lemma_code_eq_len(c1, c2, n - 1);
    }
}

/// Equality of a longer prefix implies equality of a shorter one.
proof fn lemma_code_eq_prefix(c1: Seq<Statement>, c2: Seq<Statement>, m: int, n: int)
    requires
        0 <= m <= n <= c1.len(),
        code_eq(c1, c2, n),
    ensures
        code_eq(c1, c2, m),
    decreases n - m,
{
    if m < n {
        lemma_code_eq_prefix(c1, c2, m, n - 1);
    }
}

proof fn lemma_table_eq_len(t1: Seq<(Symbol, Statement)>, t2: Seq<(Symbol, Statement)>, n: int)
    ensures
        table_eq(t1, t2, n) ==> t1.len() == t2.len(),
    decreases n,
{
    if 0 < n <= t1.len() {
        lemma_table_eq_len(t1, t2, n - 1);
    }
}

proof fn lemma_table_eq_prefix(
    t1: Seq<(Symbol, Statement)>,
    t2: Seq<(Symbol, Statement)>,
    m: int,
    n: int,
)
    requires
        0 <= m <= n <= t1.len(),
        table_eq(t1, t2, n),
    ensures
        table_eq(t1, t2, m),
    decreases n - m,
{
    if m < n {
        lemma_table_eq_prefix(t1, t2, m, n - 1);
    }
}


spec fn core_of(s: Statement) -> Coredata {
    s.1
}

/// Every value equals itself, so comparing a value with itself by identity
/// gives the same answer as comparing it by contents.
pub proof fn law_eq_reflexive(a: Coredata)
    ensures
        core_eq(a, a),
    decreases a, 0int,
{
    match a {
        Coredata::Cell(h, t) => {
            law_eq_reflexive(core_of(h));
            law_eq_reflexive(core_of(t));
        },
        Coredata::Error(x) => law_eq_reflexive(core_of(x)),
        Coredata::Function(Function::Library(_, c)) => lemma_code_reflexive(c@, c@.len() as int),
        Coredata::Macro(Macro::Library(_, c)) => lemma_code_reflexive(c@, c@.len() as int),
        Coredata::Table(t) => lemma_table_reflexive(t@, t@.len() as int),
        _ => {},
    }
}

proof fn lemma_code_reflexive(c: Seq<Statement>, n: int)
    ensures
        code_eq(c, c, n),
    decreases c, n,
{
    if 0 < n <= c.len() {
        law_eq_reflexive(core_of(c[n - 1]));
        lemma_code_reflexive(c, n - 1);
    }
}

proof fn lemma_table_reflexive(t: Seq<(Symbol, Statement)>, n: int)
    ensures
        table_eq(t, t, n),
    decreases t, n,
{
    if 0 < n <= t.len() {
        law_eq_reflexive(core_of(t[n - 1].1));
        lemma_table_reflexive(t, n - 1);
    }
}

/// Equality does not depend on the order of its operands.
pub proof fn law_eq_symmetric(a: Coredata, b: Coredata)
    ensures
        core_eq(a, b) == core_eq(b, a),
    decreases a, 0int,
{
    match (a, b) {
        (Coredata::Cell(h1, t1), Coredata::Cell(h2, t2)) => {
            law_eq_symmetric(core_of(h1), core_of(h2));
            law_eq_symmetric(core_of(t1), core_of(t2));
        },
        (Coredata::Error(x), Coredata::Error(y)) => law_eq_symmetric(core_of(x), core_of(y)),
        (
            Coredata::Function(Function::Library(_, c1)),
            Coredata::Function(Function::Library(_, c2)),
        ) => {
            lemma_code_eq_len(c1@, c2@, c1@.len() as int);
            lemma_code_eq_len(c2@, c1@, c2@.len() as int);
            lemma_code_symmetric(c1@, c2@, c1@.len() as int);
        },
        (Coredata::Macro(Macro::Library(_, c1)), Coredata::Macro(Macro::Library(_, c2))) => {
            lemma_code_eq_len(c1@, c2@, c1@.len() as int);
            lemma_code_eq_len(c2@, c1@, c2@.len() as int);
            lemma_code_symmetric(c1@, c2@, c1@.len() as int);
        },
        (Coredata::Table(t1), Coredata::Table(t2)) => {
            lemma_table_eq_len(t1@, t2@, t1@.len() as int);
            lemma_table_eq_len(t2@, t1@, t2@.len() as int);
            lemma_table_symmetric(t1@, t2@, t1@.len() as int);
        },
        _ => {},
    }
}

proof fn lemma_code_symmetric(c1: Seq<Statement>, c2: Seq<Statement>, n: int)
    ensures
        c1.len() == c2.len() ==> code_eq(c1, c2, n) == code_eq(c2, c1, n),
    decreases c1, n,
{
    if 0 < n <= c1.len() {
        law_eq_symmetric(core_of(c1[n - 1]), core_of(c2[n - 1]));
        lemma_code_symmetric(c1, c2, n - 1);
    }
}

proof fn lemma_table_symmetric(t1: Seq<(Symbol, Statement)>, t2: Seq<(Symbol, Statement)>, n: int)
    ensures
        t1.len() == t2.len() ==> table_eq(t1, t2, n) == table_eq(t2, t1, n),
    decreases t1, n,
{
    if 0 < n <= t1.len() {
        law_eq_symmetric(core_of(t1[n - 1].1), core_of(t2[n - 1].1));
        lemma_table_symmetric(t1, t2, n - 1);
    }
}

/// Values equal to a common value are equal to each other.
pub proof fn law_eq_transitive(a: Coredata, b: Coredata, c: Coredata)
    requires
        core_eq(a, b),
        core_eq(b, c),
    ensures
        core_eq(a, c),
    decreases a, 0int,
{
    match (a, b, c) {
        (Coredata::Cell(h1, t1), Coredata::Cell(h2, t2), Coredata::Cell(h3, t3)) => {
            law_eq_transitive(core_of(h1), core_of(h2), core_of(h3));
            law_eq_transitive(core_of(t1), core_of(t2), core_of(t3));
        },
        (Coredata::Error(x), Coredata::Error(y), Coredata::Error(z)) => law_eq_transitive(
            core_of(x),
            core_of(y),
            core_of(z),
        ),
        (
            Coredata::Function(Function::Library(_, c1)),
            Coredata::Function(Function::Library(_, c2)),
            Coredata::Function(Function::Library(_, c3)),
        ) => {
            lemma_code_eq_len(c1@, c2@, c1@.len() as int);
            lemma_code_eq_len(c2@, c3@, c2@.len() as int);
            lemma_code_transitive(c1@, c2@, c3@, c1@.len() as int);
        },
        (
            Coredata::Macro(Macro::Library(_, c1)),
            Coredata::Macro(Macro::Library(_, c2)),
            Coredata::Macro(Macro::Library(_, c3)),
        ) => {
            lemma_code_eq_len(c1@, c2@, c1@.len() as int);
            lemma_code_eq_len(c2@, c3@, c2@.len() as int);
            lemma_code_transitive(c1@, c2@, c3@, c1@.len() as int);
        },
        (Coredata::Table(t1), Coredata::Table(t2), Coredata::Table(t3)) => {
            lemma_table_eq_len(t1@, t2@, t1@.len() as int);
            lemma_table_eq_len(t2@, t3@, t2@.len() as int);
            lemma_table_transitive(t1@, t2@, t3@, t1@.len() as int);
        },
        _ => {},
    }
}

proof fn lemma_code_transitive(c1: Seq<Statement>, c2: Seq<Statement>, c3: Seq<Statement>, n: int)
    requires
        code_eq(c1, c2, n),
        code_eq(c2, c3, n),
    ensures
        code_eq(c1, c3, n),
    decreases c1, n,
{
    if 0 < n <= c1.len() {
        law_eq_transitive(core_of(c1[n - 1]), core_of(c2[n - 1]), core_of(c3[n - 1]));
        lemma_code_transitive(c1, c2, c3, n - 1);
    }
}

proof fn lemma_table_transitive(
    t1: Seq<(Symbol, Statement)>,
    t2: Seq<(Symbol, Statement)>,
    t3: Seq<(Symbol, Statement)>,
    n: int,
)
    requires
        table_eq(t1, t2, n),
        table_eq(t2, t3, n),
    ensures
        table_eq(t1, t3, n),
    decreases t1, n,
{
    if 0 < n <= t1.len() {
        law_eq_transitive(core_of(t1[n - 1].1), core_of(t2[n - 1].1), core_of(t3[n - 1].1));
        lemma_table_transitive(t1, t2, t3, n - 1);
    }
}

impl PartialEq for Coredata {
    fn eq(&self, other: &Self) -> (r: bool) {
        core_equal(self, other)
    }
}

impl PartialEqSpecImpl for Coredata {
    open spec fn obeys_eq_spec() -> bool {
        true
    }

    open spec fn eq_spec(&self, other: &Coredata) -> bool {
        core_eq(*self, *other)
    }
}

impl PartialEq for Sourcedata {
    /// Two values are equal when their cores are; where they were written does
    /// not count.
    fn eq(&self, other: &Self) -> (r: bool) {
        core_equal(&self.1, &other.1)
    }
}

impl PartialEqSpecImpl for Sourcedata {
    open spec fn obeys_eq_spec() -> bool {
        true
    }

    open spec fn eq_spec(&self, other: &Sourcedata) -> bool {
        core_eq(self.1, other.1)
    }
}

/// Tables are equal exactly when they have the same length and, entry by
/// entry, the same name and equal values.
pub proof fn law_table_eq_entries(t1: Seq<(Symbol, Statement)>, t2: Seq<(Symbol, Statement)>)
    ensures
        table_eq(t1, t2, t1.len() as int) <==> (t1.len() == t2.len() && forall|i: int|
            #![trigger t1[i]] 0 <= i < t1.len() ==> t1[i].0@ == t2[i].0@ && core_eq(t1[i].1.1, t2[i].1.1)),
{
    lemma_table_eq_entries(t1, t2, t1.len() as int);
}

proof fn lemma_table_eq_entries(t1: Seq<(Symbol, Statement)>, t2: Seq<(Symbol, Statement)>, n: int)
    requires
        0 <= n <= t1.len(),
    ensures
        table_eq(t1, t2, n) <==> (t1.len() == t2.len() && forall|i: int|
            #![trigger t1[i]] 0 <= i < n ==> t1[i].0@ == t2[i].0@ && core_eq(t1[i].1.1, t2[i].1.1)),
    decreases n,
{
    if n > 0 {
        lemma_table_eq_entries(t1, t2, n - 1);
        let last = t1[n - 1];
        if table_eq(t1, t2, n) {
            assert(t1[n - 1] == last);
        } else if t1.len() == t2.len() && forall|i: int|
            #![trigger t1[i]]
            0 <= i < n ==> t1[i].0@ == t2[i].0@ && core_eq(t1[i].1.1, t2[i].1.1) {
            assert(last == t1[n - 1]);
        }
    }
}

/// Two tables are equal values exactly when they hold, entry by entry, the
/// same names bound to equal values.
pub proof fn law_tables_equal_by_entries(t1: Vec<(Symbol, Statement)>, t2: Vec<(Symbol, Statement)>)
    ensures
        core_eq(Coredata::Table(t1), Coredata::Table(t2)) <==> (t1@.len() == t2@.len() && forall|
            i: int,
        |
            #![trigger t1@[i]] 0 <= i < t1@.len() ==> t1@[i].0@ == t2@[i].0@ && core_eq(
                t1@[i].1.1,
                t2@[i].1.1,
            )),
{
    law_table_eq_entries(t1@, t2@);
}

} // verus!
