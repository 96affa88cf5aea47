//! The variable store and the parameter lists that are waiting to be removed
//! from it.
use vstd::prelude::*;

use crate::data::{rcs, Coredata, Sourcedata, Statement, Symbol};

verus! {

/// The names of parameters that must leave the store when a function call ends.
/// No name occurs twice.
#[derive(Debug)]
pub struct Deparize {
    arguments: Vec<Symbol>,
}

/// The text of each name in a list of names.
pub open spec fn names_view(names: Seq<Symbol>) -> Seq<Seq<char>> {
    names.map_values(|s: Symbol| s@)
}

impl View for Deparize {
    type V = Seq<Seq<char>>;

    closed spec fn view(&self) -> Seq<Seq<char>> {
        names_view(self.arguments@)
    }
}

impl Deparize {
    #[verifier::type_invariant]
    closed spec fn distinct(self) -> bool {
        names_view(self.arguments@).no_duplicates()
    }

    /// The names, in the order in which they were merged in.
    pub fn names(&self) -> (r: &Vec<Symbol>)
        ensures
            names_view(r@) == self@,
    {
        &self.arguments
    }

    /// Adds `name` unless it is already present; tells whether it was.
    pub fn check_preexistence_and_merge_single(&mut self, name: &Symbol) -> (existed: bool)
        ensures
            existed == old(self)@.contains(name@),
            final(self)@ == (if existed { old(self)@ } else { old(self)@.push(name@) }),
            final(self)@.no_duplicates(),
    {
        proof {
            use_type_invariant(&*self);
        }
        let n = self.arguments.len();
        let mut i: usize = 0;
        while i < n
            invariant
                n == self.arguments.len(),
                self@.no_duplicates(),
                i <= n,
                forall|j: int| 0 <= j < i ==> self.arguments@[j]@ != name@,
            decreases n - i,
        {
            if self.arguments[i] == *name {
                proof {
                    assert(self@[i as int] == name@);
                }
                return true;
            }
            i = i + 1;
        }
        proof {
            assert forall|j: int| 0 <= j < self@.len() implies self@[j] != name@ by {
                assert(self@[j] == self.arguments@[j]@);
            }
        }
        let ghost before = self.arguments@;
        let mut arguments: Vec<Symbol> = Vec::new();
        std::mem::swap(&mut arguments, &mut self.arguments);
        arguments.push(name.clone());
        proof {
            assert(names_view(arguments@) =~= names_view(before).push(name@));
        }
        self.arguments = arguments;
        false
    }
}

impl Default for Deparize {
    fn default() -> (r: Deparize)
        ensures
            r@ == Seq::<Seq<char>>::empty(),
    {
        let r = Deparize { arguments: Vec::new() };
        proof {
            assert(names_view(r.arguments@) =~= Seq::<Seq<char>>::empty());
        }
        r
    }
}

impl Clone for Deparize {
    fn clone(&self) -> (r: Self)
        ensures
            r@ == self@,
    {
        proof {
            use_type_invariant(self);
        }
        let n = self.arguments.len();
        let mut copy: Vec<Symbol> = Vec::new();
        let mut i: usize = 0;
        while i < n
            invariant
                n == self.arguments.len(),
                i <= n,
                names_view(copy@) =~= self@.take(i as int),
            decreases n - i,
        {
            let ghost before = copy@;
            copy.push(self.arguments[i].clone());
            proof {
                assert(names_view(copy@) =~= names_view(before).push(self@[i as int]));
                assert(self@.take(i + 1) =~= self@.take(i as int).push(self@[i as int]));
            }
            i = i + 1;
        }
        proof {
            assert(self@.take(n as int) =~= self@);
        }
        Deparize { arguments: copy }
    }
}

/// The store after the most recent binding of `name` is taken out, with the value
/// it held; `None` where `name` is not bound.
pub open spec fn binding_pop(store: Seq<(Symbol, Statement)>, name: Seq<char>) -> Option<
    (Seq<(Symbol, Statement)>, Statement),
>
    decreases store.len(),
{
    if store.len() == 0 {
        None
    } else if store.last().0@ == name {
        Some((store.drop_last(), store.last().1))
    } else {
        match binding_pop(store.drop_last(), name) {
            Some((rest, value)) => Some((rest.push(store.last()), value)),
            None => None,
        }
    }
}

/// The store after the most recent binding of each name in turn is taken out;
/// `None` where one of them is not bound at its turn.
pub open spec fn pop_all(store: Seq<(Symbol, Statement)>, names: Seq<Seq<char>>) -> Option<
    Seq<(Symbol, Statement)>,
>
    decreases names.len(),
{
    if names.len() == 0 {
        Some(store)
    } else {
        match binding_pop(store, names[0]) {
            Some((rest, _)) => pop_all(rest, names.drop_first()),
            None => None,
        }
    }
}

/// The interpreter's environment: argument lists of calls under way, the
/// store of variable bindings (the most recent binding of a name last), and
/// the result of the last evaluation.
#[derive(Debug)]
pub struct Env {
    pub params: Vec<Vec<Statement>>,
    pub store: Vec<(Symbol, Statement)>,
    pub result: Statement,
}

proof fn lemma_binding_pop_at(store: Seq<(Symbol, Statement)>, name: Seq<char>, j: int)
    requires
        0 <= j < store.len(),
        store[j].0@ == name,
        forall|k: int| j < k < store.len() ==> store[k].0@ != name,
    ensures
        binding_pop(store, name) == Some((store.remove(j), store[j].1)),
    decreases store.len(),
{
    if j == store.len() - 1 {
        assert(store.remove(j) =~= store.drop_last());
    } else {
        lemma_binding_pop_at(store.drop_last(), name, j);
        assert(store.drop_last().remove(j).push(store.last()) =~= store.remove(j));
    }
}

proof fn lemma_binding_pop_none(store: Seq<(Symbol, Statement)>, name: Seq<char>)
    requires
        forall|k: int| 0 <= k < store.len() ==> store[k].0@ != name,
    ensures
        binding_pop(store, name) is None,
    decreases store.len(),
{
    if store.len() > 0 {
        lemma_binding_pop_none(store.drop_last(), name);
    }
}

impl Env {
    /// An environment with no calls under way, no bindings and a null result.
    pub fn new() -> (r: Env)
        ensures
            r.params@ == Seq::<Vec<Statement>>::empty(),
            r.store@ == Seq::<(Symbol, Statement)>::empty(),
            *r.result == Sourcedata(None, Coredata::Null()),
    {
        Env { params: Vec::new(), store: Vec::new(), result: rcs(Coredata::Null()) }
    }

    /// Binds `name` to `value`, hiding any earlier binding of it.
    pub fn push(&mut self, name: Symbol, value: Statement)
        ensures
            final(self).store@ == old(self).store@.push((name, value)),
            final(self).params == old(self).params,
            final(self).result == old(self).result,
    {
        self.store.push((name, value));
    }

    /// Takes out the most recent binding of `name` and gives its value; leaves the
    /// store as it is where `name` is not bound.
    pub fn pop(&mut self, name: &Symbol) -> (r: Option<Statement>)
        ensures
            final(self).params == old(self).params,
            final(self).result == old(self).result,
            match binding_pop(old(self).store@, name@) {
                Some((rest, value)) => r == Some(value) && final(self).store@ == rest,
                None => r is None && final(self).store@ == old(self).store@,
            },
    {
        let mut i = self.store.len();
        while i > 0
            invariant
                i <= self.store.len(),
                self.store@ == old(self).store@,
                self.params == old(self).params,
                self.result == old(self).result,
                forall|k: int| i <= k < self.store.len() ==> self.store@[k].0@ != name@,
            decreases i,
        {
            if self.store[i - 1].0 == *name {
                proof {
                    lemma_binding_pop_at(self.store@, name@, i - 1);
                }
                let (_, value) = self.store.remove(i - 1);
                return Some(value);
            }
            i = i - 1;
        }
        proof {
            lemma_binding_pop_none(self.store@, name@);
        }
        None
    }

    /// Records the result of the last evaluation.
    pub fn set_result(&mut self, value: Statement)
        ensures
            final(self).result == value,
            final(self).params == old(self).params,
            final(self).store == old(self).store,
    {
        self.result = value;
    }
}

/// Taking out a binding just made gives back its value and the store as it was.
pub proof fn law_pop_undoes_push(store: Seq<(Symbol, Statement)>, name: Symbol, value: Statement)
    ensures
        binding_pop(store.push((name, value)), name@) == Some((store, value)),
{
    assert(store.push((name, value)).drop_last() =~= store);
}

} // verus!
