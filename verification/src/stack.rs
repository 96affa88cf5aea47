//! Leaving function calls: removing parameters from the store, merging the
//! parameters of a tail call, and unwinding the program stack on an error.
use std::sync::Arc;
use vstd::prelude::*;

use crate::data::{rcs, Commands, Coredata, Program, Source, Sourcedata, Statement, Symbol};
use crate::env::{binding_pop, names_view, pop_all, Deparize, Env};
use crate::lists::{internal_trace, trace_list};

verus! {

/// Unwinding takes commands off the top of the program down to and including
/// the first wind; each parameter list passed on the way leaves the store, and
/// each call passed drops an argument list. This gives the program and store
/// that remain, with the number of calls passed; `None` where a parameter to be
/// removed is not bound.
pub open spec fn unwind_steps(program: Seq<Statement>, store: Seq<(Symbol, Statement)>) -> Option<
    (Seq<Statement>, nat, Seq<(Symbol, Statement)>),
>
    decreases program.len(),
{
    if program.len() == 0 {
        Some((program, 0, store))
    } else {
        let rest = program.drop_last();
        match program.last().1 {
            Coredata::Internal(Commands::Deparize(args)) => match pop_all(store, args@) {
                Some(s) => unwind_steps(rest, s),
                None => None,
            },
            Coredata::Internal(Commands::Call(..)) => match unwind_steps(rest, store) {
                Some((p, calls, s)) => Some((p, calls + 1, s)),
                None => None,
            },
            Coredata::Internal(Commands::Wind) => Some((rest, 0, store)),
            _ => unwind_steps(rest, store),
        }
    }
}

/// The argument lists that remain after `calls` of them are dropped.
pub open spec fn drop_frames(params: Seq<Vec<Statement>>, calls: nat) -> Seq<Vec<Statement>> {
    if calls <= params.len() {
        params.take(params.len() - calls)
    } else {
        Seq::<Vec<Statement>>::empty()
    }
}

/// The last argument of the innermost argument list, or null.
pub open spec fn last_argument(params: Seq<Vec<Statement>>) -> Sourcedata {
    if params.len() > 0 && params.last()@.len() > 0 {
        *params.last()@.last()
    } else {
        Sourcedata(None, Coredata::Null())
    }
}

/// Pops the specified parameters from the store, the most recent binding of
/// each in turn.
pub fn pop_parameters(_program: &mut Program, env: &mut Env, args: &Deparize)
    requires
        pop_all(old(env).store@, args@) is Some,
    ensures
        final(env).store@ == pop_all(old(env).store@, args@).unwrap(),
        final(env).params == old(env).params,
        final(env).result == old(env).result,
        *final(_program) == *old(_program),
{
    let names = args.names();
    let n = names.len();
    let mut i: usize = 0;
    proof {
        assert(args@.skip(0) =~= args@);
    }
    while i < n
        invariant
            n == names@.len(),
            names_view(names@) == args@,
            i <= n,
            pop_all(env.store@, args@.skip(i as int)) == pop_all(old(env).store@, args@),
            pop_all(old(env).store@, args@) is Some,
            env.params == old(env).params,
            env.result == old(env).result,
        decreases n - i,
    {
        proof {
            assert(args@.skip(i as int)[0] == names@[i as int]@);
            assert(args@.skip(i as int).drop_first() =~= args@.skip(i + 1));
        }
        let popped = env.pop(&names[i]);
        proof {
            assert(popped is Some);
        }
        i = i + 1;
    }
    proof {
        assert(args@.skip(n as int) =~= Seq::<Seq<char>>::empty());
    }
}

/// Unwinds the stack until first wind is encountered, popping parameters and
/// argument lists on the way. The result becomes the last argument of the
/// innermost argument list.
pub fn unwind(program: &mut Program, env: &mut Env) -> (r: Option<(Option<Source>, String)>)
    requires
        unwind_steps(old(program)@, old(env).store@) is Some,
    ensures
        r is None,
        ({
            let (p, calls, store) = unwind_steps(old(program)@, old(env).store@).unwrap();
            &&& final(program)@ == p
            &&& final(env).params@ == drop_frames(old(env).params@, calls)
            &&& final(env).store@ == store
        }),
        *final(env).result == last_argument(old(env).params@),
{
    let result;
    if let Some(param) = env.params.last() {
        if let Some(last) = param.last() {
            result = last.clone();
        } else {
            result = rcs(Coredata::Null());
        }
    } else {
        result = rcs(Coredata::Null());
    }
    env.set_result(result);
    let ghost target = unwind_steps(old(program)@, old(env).store@).unwrap();
    let ghost params0 = old(env).params@;
    let ghost mut passed: nat = 0;
    loop
        invariant_except_break
            unwind_steps(program@, env.store@) matches Some((p, calls, s)) && p == target.0
                && calls + passed == target.1 && s == target.2,
        invariant
            env.params@ == drop_frames(params0, passed),
            *env.result == last_argument(old(env).params@),
        ensures
            program@ == target.0,
            passed == target.1,
            env.store@ == target.2,
            env.params@ == drop_frames(params0, passed),
            *env.result == last_argument(old(env).params@),
        decreases program@.len(),
    {
        let ghost before = program@;
        match program.pop() {
            Some(top) => {
                proof {
                    assert(before.drop_last() =~= program@);
                    assert(before.last() == top);
                }
                match top.1 {
                    Coredata::Internal(Commands::Deparize(ref arguments)) => {
                        pop_parameters(program, env, arguments);
                    },
                    Coredata::Internal(Commands::Call(..)) => {
                        let ghost params = env.params@;
                        env.params.pop();
                        proof {
                            if params.len() > 0 {
                                assert(env.params@ =~= params.drop_last());
                            }
                            assert(env.params@ =~= drop_frames(params0, passed + 1));
                            passed = passed + 1;
                        }
                    },
                    Coredata::Internal(Commands::Wind) => {
                        break ;
                    },
                    _ => {},
                }
            },
            None => {
                break ;
            },
        }
    }
    None
}


/// Whether two optional positions are the same position.
pub open spec fn same_place(a: Option<Source>, b: Option<Source>) -> bool {
    match (a, b) {
        (None, None) => true,
        (Some(x), Some(y)) => x.line == y.line && x.column == y.column && x.source@ == y.source@,
        _ => false,
    }
}

/// A statement holding the string `text` at position `place`.
pub open spec fn is_message(s: Statement, place: Option<Source>, text: Seq<char>) -> bool {
    &&& s.0 == place
    &&& s.1 matches Coredata::String(m) && m@ == text
}

/// The statements that describe an error at the top of its trace: the message
/// at the position of the error, preceded by `called from here` at the position
/// where the error was raised, where the error has a position and it differs.
pub open spec fn error_statements(
    temp: Seq<Statement>,
    source: Option<Source>,
    src: Option<Source>,
    message: Seq<char>,
) -> bool {
    if src is None {
        temp.len() == 1 && is_message(temp[0], source, message)
    } else if same_place(source, src) {
        temp.len() == 1 && is_message(temp[0], src, message)
    } else {
        &&& temp.len() == 2
        &&& is_message(temp[0], source, "called from here"@)
        &&& is_message(temp[1], src, message)
    }
}

/// Unwind and trace with an error message if it is Some.
///
/// Mixes unwind and tracing from an error's invocation. Any time an unwind
/// happens `env.result` will contain an error with the stack trace in addition
/// to the error provided: the trace of the program stack as it stood, bottom
/// first, followed by the entries of `error_statements`.
pub fn err(
    source: &Option<Source>,
    error: &Option<(Option<Source>, String)>,
    program: &mut Program,
    env: &mut Env,
)
    requires
        error is Some ==> (unwind_steps(old(program)@, old(env).store@) matches Some((_, calls, _))
            && calls <= old(env).params@.len()),
    ensures
        error is None ==> *final(program) == *old(program) && *final(env) == *old(env),
        error matches Some((src, message)) ==> ({
            let (p, calls, store) = unwind_steps(old(program)@, old(env).store@).unwrap();
            &&& final(program)@ == p
            &&& final(env).store@ == store
            &&& final(env).params@ == old(env).params@.take(old(env).params@.len() - calls)
            &&& exists|messages: Seq<Statement>|
                error_statements(messages, *source, *src, message@) && *final(env).result
                    == Sourcedata(
                    None,
                    Coredata::Error(Arc::new(trace_list(old(program)@ + messages))),
                )
        }),
{
    if let Some((ref src, ref message)) = *error {
        let mut temp: Vec<Statement> = Vec::new();
        let n = program.len();
        let mut i: usize = 0;
        while i < n
            invariant
                n == program@.len(),
                *program == *old(program),
                i <= n,
                temp@ == program@.take(i as int),
            decreases n - i,
        {
            temp.push(program[i].clone());
            proof {
                assert(program@.take(i + 1) =~= program@.take(i as int).push(program@[i as int]));
            }
            i = i + 1;
        }
        proof {
            assert(program@.take(n as int) =~= program@);
        }
        let ghost frames = temp@;
        if src.is_none() {
            temp.push(Arc::new(Sourcedata(source.clone(), Coredata::String(message.clone()))));
        } else {
            if source != src {
                temp.push(
                    Arc::new(
                        Sourcedata(source.clone(), Coredata::String("called from here".to_owned())),
                    ),
                );
            }
            temp.push(Arc::new(Sourcedata(src.clone(), Coredata::String(message.clone()))));
        }
        let ghost statements = temp@;
        let ghost messages = statements.skip(frames.len() as int);
        let trace = internal_trace(&mut temp, env);
        proof {
            assert(statements =~= old(program)@ + messages);
            assert(error_statements(messages, *source, *src, message@));
        }
        let ghost params0 = env.params@;
        env.params.push(vec![rcs(Coredata::Error(trace))]);
        unwind(program, env);
        let popped = env.params.pop();
        proof {
            assert(popped is Some);
            assert(env.params@ =~= params0.take(params0.len() - unwind_steps(
                old(program)@,
                old(env).store@,
            ).unwrap().1));
        }
    }
}

/// `Arc::get_mut`: a mutable reference to the shared value where this pointer is
/// its only owner, `None` otherwise. Whether the pointer is the only owner
/// depends on the other pointers alive, which the contract does not know: it
/// states only that a reference, where one is given, reaches the value behind
/// the pointer, and that nothing changes otherwise.
#[verifier::external_body]
fn arc_get_mut<T>(this: &mut Arc<T>) -> (r: Option<&mut T>)
    ensures
        r matches Some(m) ==> *m == **old(this) && **final(this) == *final(m),
        r is None ==> *final(this) == *old(this),
{
    Arc::get_mut(this)
}

/// The value `s` with a parameter list in place of the one it holds.
pub open spec fn with_deparize(s: Statement, d: Deparize) -> Statement {
    Arc::new(Sourcedata(s.0, Coredata::Internal(Commands::Deparize(d))))
}

/// The parameter list that a value holds, where it is one: a reference through
/// which the list can be changed in place; `None` for any other value, which is
/// left as it is.
pub fn deparize_in<'a>(data: &'a mut Sourcedata) -> (r: Option<&'a mut Deparize>)
    ensures
        match old(data).1 {
            Coredata::Internal(Commands::Deparize(d)) => r matches Some(x) && *x == d
                && *final(data) == Sourcedata(
                old(data).0,
                Coredata::Internal(Commands::Deparize(*final(x))),
            ),
            _ => r is None && *final(data) == *old(data),
        },
{
    match data.1 {
        Coredata::Internal(Commands::Deparize(ref mut dep)) => Some(dep),
        _ => None,
    }
}

/// Whether a value is a parameter list.
pub open spec fn holds_deparize(s: Statement) -> bool {
    s.1 matches Coredata::Internal(Commands::Deparize(_))
}

/// Whether the `k`-th entry that a search from the top of `entries` handed to
/// `Arc::get_mut` could be taken: its pointer was the only owner (`owned[k]`)
/// and it holds a parameter list.
pub open spec fn takable(entries: Seq<Statement>, owned: Seq<bool>, k: int) -> bool {
    owned[k] && holds_deparize(entries[entries.len() - 1 - k])
}

/// What a search for a parameter list from the top of `entries` promises, where
/// `owned` records, entry by entry from the top down, what `Arc::get_mut` gave
/// (`true` for a reference): the entries handed are those from the top down to
/// the one found, or all of them where none was found; and the one found is
/// the first of them that could be taken.
pub open spec fn searched_from_top(entries: Seq<Statement>, owned: Seq<bool>, found: bool) -> bool {
    if found {
        &&& 0 < owned.len() <= entries.len()
        &&& takable(entries, owned, owned.len() - 1)
        &&& forall|k: int| 0 <= k < owned.len() - 1 ==> !#[trigger] takable(entries, owned, k)
    } else {
        &&& owned.len() == entries.len()
        &&& forall|k: int| 0 <= k < owned.len() ==> !#[trigger] takable(entries, owned, k)
    }
}

/// Searches a program from its top for a parameter list that it alone owns.
fn find_depar_in<'a>(slice: &'a mut [Statement]) -> (r: (Option<&'a mut Deparize>, Ghost<Seq<bool>>))
    ensures
        searched_from_top(old(slice)@, r.1@, r.0 is Some),
        match r.0 {
            Some(d) => {
                let j = old(slice)@.len() - r.1@.len();
                &&& old(slice)@[j].1 == Coredata::Internal(Commands::Deparize(*d))
                &&& final(slice)@ == old(slice)@.update(j, with_deparize(old(slice)@[j], *final(d)))
            },
            None => final(slice)@ == old(slice)@,
        },
    decreases old(slice)@.len(),
{
    let n = slice.len();
    if n == 0 {
        return (None, Ghost(Seq::empty()));
    }
    let (rest, last) = slice.split_at_mut(n - 1);
    let outcome = arc_get_mut(&mut last[0]);
    let ghost owned = outcome is Some;
    match outcome {
        Some(data) => {
            if let Some(dep) = deparize_in(data) {
                return (Some(dep), Ghost(Seq::empty().push(true)));
            }
        },
        None => {},
    }
    let ghost rest0 = rest@;
    let (found, Ghost(tail)) = find_depar_in(rest);
    proof {
        let record = Seq::empty().push(owned) + tail;
        assert(!takable(old(slice)@, record, 0));
        assert forall|k: int| 0 < k < record.len() implies #[trigger] takable(old(slice)@, record, k)
            == takable(rest0, tail, k - 1) by {
            assert(record[k] == tail[k - 1]);
            assert(old(slice)@[old(slice)@.len() - 1 - k] == rest0[rest0.len() - 1 - (k - 1)]);
        }
    }
    (found, Ghost(Seq::empty().push(owned) + tail))
}

/// Finds the topmost parameter list on the program stack that the program
/// alone holds, so that more parameters can be merged into it; `None` where
/// there is none. A reference given reaches that entry of the program. Beside
/// it comes the record of the search: what `Arc::get_mut` gave for each entry
/// it was handed, from the top down.
pub fn find_earliest_depar(program: &mut Program) -> (r: (Option<&mut Deparize>, Ghost<Seq<bool>>))
    ensures
        searched_from_top(old(program)@, r.1@, r.0 is Some),
        match r.0 {
            Some(d) => {
                let j = old(program)@.len() - r.1@.len();
                &&& old(program)@[j].1 == Coredata::Internal(Commands::Deparize(*d))
                &&& final(program)@ == old(program)@.update(j, with_deparize(old(program)@[j], *final(d)))
            },
            None => final(program)@ == old(program)@,
        },
{
    find_depar_in(program.as_mut_slice())
}

/// The names merged into `dep` one by one, each only where not yet present.
pub open spec fn merge_names(dep: Seq<Seq<char>>, names: Seq<Seq<char>>) -> Seq<Seq<char>>
    decreases names.len(),
{
    if names.len() == 0 {
        dep
    } else {
        let d = merge_names(dep, names.drop_last());
        if d.contains(names.last()) {
            d
        } else {
            d.push(names.last())
        }
    }
}

/// The names that, merged into `dep` one by one, were already present at their
/// turn, in order.
pub open spec fn repeated_names(dep: Seq<Seq<char>>, names: Seq<Seq<char>>) -> Seq<Seq<char>>
    decreases names.len(),
{
    if names.len() == 0 {
        Seq::<Seq<char>>::empty()
    } else {
        let d = merge_names(dep, names.drop_last());
        repeated_names(dep, names.drop_last()) + if d.contains(names.last()) {
            seq![names.last()]
        } else {
            Seq::<Seq<char>>::empty()
        }
    }
}

/// The parameter list on top of the program, where there is one.
pub open spec fn top_deparize(program: Seq<Statement>) -> Option<Deparize> {
    if program.len() > 0 {
        match program.last().1 {
            Coredata::Internal(Commands::Deparize(d)) => Some(d),
            _ => None,
        }
    } else {
        None
    }
}

proof fn lemma_merge_step(dep: Seq<Seq<char>>, names: Seq<Seq<char>>, i: int)
    requires
        0 <= i < names.len(),
    ensures
        ({
            let d = merge_names(dep, names.take(i));
            let d2 = if d.contains(names[i]) {
                d
            } else {
                d.push(names[i])
            };
            &&& merge_names(dep, names.take(i + 1)) == d2
            &&& repeated_names(dep, names.take(i + 1)) == repeated_names(dep, names.take(i)) + (
            if d.contains(names[i]) {
                seq![names[i]]
            } else {
                Seq::<Seq<char>>::empty()
            })
        }),
{
    assert(names.take(i + 1).drop_last() =~= names.take(i));
    assert(names.take(i + 1).last() == names[i]);
}

/// Merges each name into `deparize`.
fn merge_all(deparize: &mut Deparize, params2: &[Symbol])
    ensures
        final(deparize)@ == merge_names(old(deparize)@, names_view(params2@)),
{
    let ghost names = names_view(params2@);
    let ghost dep0 = deparize@;
    let n = params2.len();
    let mut i: usize = 0;
    proof {
        assert(names.take(0) =~= Seq::<Seq<char>>::empty());
    }
    while i < n
        invariant
            n == params2@.len(),
            names == names_view(params2@),
            i <= n,
            deparize@ == merge_names(dep0, names.take(i as int)),
        decreases n - i,
    {
        proof {
            lemma_merge_step(dep0, names, i as int);
            assert(names[i as int] == params2@[i as int]@);
        }
        deparize.check_preexistence_and_merge_single(&params2[i]);
        i = i + 1;
    }
    proof {
        assert(names.take(n as int) =~= names);
    }
}

/// Merges each name into `deparize`, taking the most recent binding of the
/// name out of the store wherever the name was already present.
fn merge_parameters(deparize: &mut Deparize, env: &mut Env, params2: &[Symbol])
    requires
        pop_all(old(env).store@, repeated_names(old(deparize)@, names_view(params2@))) is Some,
    ensures
        final(deparize)@ == merge_names(old(deparize)@, names_view(params2@)),
        final(env).store@ == pop_all(
            old(env).store@,
            repeated_names(old(deparize)@, names_view(params2@)),
        ).unwrap(),
        final(env).params == old(env).params,
        final(env).result == old(env).result,
{
    let ghost names = names_view(params2@);
    let ghost dep0 = deparize@;
    let ghost target = pop_all(old(env).store@, repeated_names(dep0, names)).unwrap();
    let n = params2.len();
    let mut i: usize = 0;
    proof {
        assert(names.take(0) =~= Seq::<Seq<char>>::empty());
        assert(repeated_names(dep0, names) =~= repeated_names(dep0, names.take(0)) + repeated_names(
            dep0,
            names,
        ).skip(0));
    }
    while i < n
        invariant
            n == params2@.len(),
            names == names_view(params2@),
            i <= n,
            deparize@ == merge_names(dep0, names.take(i as int)),
            pop_all(old(env).store@, repeated_names(dep0, names)) is Some,
            target == pop_all(old(env).store@, repeated_names(dep0, names)).unwrap(),
            pop_all(env.store@, repeated_names(dep0, names).skip(
                repeated_names(dep0, names.take(i as int)).len() as int,
            )) == Some(target),
            repeated_names(dep0, names.take(i as int)) =~= repeated_names(dep0, names).take(
                repeated_names(dep0, names.take(i as int)).len() as int,
            ),
            repeated_names(dep0, names.take(i as int)).len() <= repeated_names(dep0, names).len(),
            env.params == old(env).params,
            env.result == old(env).result,
        decreases n - i,
    {
        proof {
            lemma_merge_step(dep0, names, i as int);
            assert(names[i as int] == params2@[i as int]@);
        }
        let ghost k = repeated_names(dep0, names.take(i as int)).len() as int;
        let existed = deparize.check_preexistence_and_merge_single(&params2[i]);
        if existed {
            proof {
                lemma_take_full(dep0, names, i as int + 1);
                let all = repeated_names(dep0, names);
                let longer = repeated_names(dep0, names.take(i + 1));
                assert(longer =~= repeated_names(dep0, names.take(i as int)).push(names[i as int]));
                assert(longer[k] == names[i as int]);
                assert(longer == all.take(k + 1));
                assert(all.take(k + 1)[k] == all[k]);
                assert(all[k] == names[i as int]);
                assert(all.skip(k)[0] == names[i as int]);
                assert(all.skip(k).drop_first() =~= all.skip(k + 1));
            }
            let popped = env.pop(&params2[i]);
            proof {
                assert(popped is Some);
            }
        }
        proof {
            lemma_take_full(dep0, names, i as int + 1);
        }
        i = i + 1;
    }
    proof {
        assert(names.take(n as int) =~= names);
        assert(repeated_names(dep0, names).skip(repeated_names(dep0, names).len() as int)
            =~= Seq::<Seq<char>>::empty());
    }
}

/// The names that repeat within a prefix of a list are a prefix of those that
/// repeat within the whole list.
proof fn lemma_take_full(dep: Seq<Seq<char>>, names: Seq<Seq<char>>, i: int)
    requires
        0 <= i <= names.len(),
    ensures
        repeated_names(dep, names.take(i)) =~= repeated_names(dep, names).take(
            repeated_names(dep, names.take(i)).len() as int,
        ),
        repeated_names(dep, names.take(i)).len() <= repeated_names(dep, names).len(),
    decreases names.len() - i,
{
    if i < names.len() {
        lemma_take_full(dep, names, i + 1);
        lemma_merge_step(dep, names, i);
    } else {
        assert(names.take(i) =~= names);
    }
}

/// Optimizes tail calls by seeing if the current `params` can be merged with the
/// top of the stack.
///
/// If the top of the program holds a parameter list, it is taken off and the
/// new parameters are merged into it; a parameter already in it loses its
/// previous binding now, since it is removed only once when the call ends.
/// Otherwise the program stays as it is and the result holds the new
/// parameters alone.
pub fn optimize_tail_call(program: &mut Program, env: &mut Env, params2: &[Symbol]) -> (r:
    Deparize)
    requires
        top_deparize(old(program)@) matches Some(d) ==> pop_all(
            old(env).store@,
            repeated_names(d@, names_view(params2@)),
        ) is Some,
    ensures
        match top_deparize(old(program)@) {
            Some(d) => {
                &&& final(program)@ == old(program)@.drop_last()
                &&& r@ == merge_names(d@, names_view(params2@))
                &&& final(env).store@ == pop_all(
                    old(env).store@,
                    repeated_names(d@, names_view(params2@)),
                ).unwrap()
            },
            None => {
                &&& final(program)@ == old(program)@
                &&& r@ == merge_names(Seq::<Seq<char>>::empty(), names_view(params2@))
                &&& final(env).store@ == old(env).store@
            },
        },
        final(env).params == old(env).params,
        final(env).result == old(env).result,
{
    let ghost before = program@;
    if let Some(top) = program.pop() {
        proof {
            assert(before.drop_last() =~= program@);
        }
        match top.1 {
            Coredata::Internal(Commands::Deparize(ref content2)) => {
                let mut content = content2.clone();
                merge_parameters(&mut content, env, params2);
                content
            },
            _ => {
                let mut deparize = Deparize::default();
                program.push(top);
                proof {
                    assert(program@ =~= before);
                }
                merge_all(&mut deparize, params2);
                deparize
            },
        }
    } else {
        let mut deparize = Deparize::default();
        merge_all(&mut deparize, params2);
        deparize
    }
}


/// The height of the program below its topmost wind; 0 where it has none.
pub open spec fn below_top_wind(program: Seq<Statement>) -> nat
    decreases program.len(),
{
    if program.len() == 0 {
        0
    } else if program.last().1 matches Coredata::Internal(Commands::Wind) {
        (program.len() - 1) as nat
    } else {
        below_top_wind(program.drop_last())
    }
}

proof fn lemma_below_top_wind_bound(program: Seq<Statement>)
    ensures
        below_top_wind(program) <= program.len(),
    decreases program.len(),
{
    if program.len() > 0 {
        lemma_below_top_wind_bound(program.drop_last());
    }
}

/// Unwinding keeps exactly the part of the program below its topmost wind and
/// passes no more calls than the program holds.
pub proof fn law_unwind_stops_at_wind(program: Seq<Statement>, store: Seq<(Symbol, Statement)>)
    requires
        unwind_steps(program, store) is Some,
    ensures
        ({
            let (rest, calls, _) = unwind_steps(program, store).unwrap();
            &&& rest == program.take(below_top_wind(program) as int)
            &&& calls <= program.len()
        }),
    decreases program.len(),
{
    if program.len() > 0 {
        let rest = program.drop_last();
        lemma_below_top_wind_bound(rest);
        match program.last().1 {
            Coredata::Internal(Commands::Deparize(args)) => {
                law_unwind_stops_at_wind(rest, pop_all(store, args@).unwrap());
                assert(rest.take(below_top_wind(rest) as int) =~= program.take(
                    below_top_wind(rest) as int,
                ));
            },
            Coredata::Internal(Commands::Wind) => {
                assert(rest =~= program.take(program.len() - 1));
            },
            _ => {
                law_unwind_stops_at_wind(rest, store);
                assert(rest.take(below_top_wind(rest) as int) =~= program.take(
                    below_top_wind(rest) as int,
                ));
            },
        }
    } else {
        assert(program.take(0) =~= program);
    }
}

/// Whether a program entry is a call.
pub open spec fn is_call(s: Statement) -> bool {
    s.1 matches Coredata::Internal(Commands::Call(_))
}

/// Unwinding drops one argument list for each call above the topmost wind,
/// however many there are.
pub proof fn law_unwind_counts_calls(program: Seq<Statement>, store: Seq<(Symbol, Statement)>)
    requires
        unwind_steps(program, store) is Some,
    ensures
        unwind_steps(program, store).unwrap().1 == program.skip(below_top_wind(program) as int).filter(
            |s: Statement| is_call(s),
        ).len(),
    decreases program.len(),
{
    let pred = |s: Statement| is_call(s);
    if program.len() == 0 {
        assert(program.skip(0).len() == 0);
        reveal(Seq::filter);
    } else {
        let rest = program.drop_last();
        let last = program.last();
        lemma_below_top_wind_bound(rest);
        match last.1 {
            Coredata::Internal(Commands::Wind) => {
                let suffix = program.skip(program.len() - 1);
                assert(suffix =~= Seq::<Statement>::empty().push(last));
                Seq::<Statement>::empty().lemma_filter_push(last, pred);
                reveal(Seq::filter);
            },
            _ => {
                let next_store = match last.1 {
                    Coredata::Internal(Commands::Deparize(args)) => pop_all(store, args@).unwrap(),
                    _ => store,
                };
                law_unwind_counts_calls(rest, next_store);
                let b = below_top_wind(rest) as int;
                assert(program.skip(b) =~= rest.skip(b).push(last));
                rest.skip(b).lemma_filter_push(last, pred);
            },
        }
    }
}

/// After merging, every name of the parameter list and every merged name is
/// present, no name occurs twice where none did before, and nothing else is
/// present.
pub proof fn law_merge_names(dep: Seq<Seq<char>>, names: Seq<Seq<char>>)
    requires
        dep.no_duplicates(),
    ensures
        merge_names(dep, names).no_duplicates(),
        forall|x: Seq<char>|
            #![trigger merge_names(dep, names).contains(x)]
            merge_names(dep, names).contains(x) <==> (dep.contains(x) || names.contains(x)),
    decreases names.len(),
{
    if names.len() > 0 {
        let front = names.drop_last();
        law_merge_names(dep, front);
        let d = merge_names(dep, front);
        let last = names.last();
        assert forall|x: Seq<char>|
            #![trigger merge_names(dep, names).contains(x)]
            merge_names(dep, names).contains(x) <==> (dep.contains(x) || names.contains(x)) by {
            if names.contains(x) && !front.contains(x) {
                let i = choose|i: int| 0 <= i < names.len() && names[i] == x;
                if i < names.len() - 1 {
                    assert(front[i] == x);
                }
            }
            if front.contains(x) {
                let i = choose|i: int| 0 <= i < front.len() && front[i] == x;
                assert(names[i] == x);
            }
            if !d.contains(last) {
                assert(d.push(last)[d.len() as int] == last);
                if d.push(last).contains(x) && x != last {
                    let i = choose|i: int| 0 <= i < d.push(last).len() && d.push(last)[i] == x;
                    assert(d[i] == x);
                }
                if d.contains(x) {
                    let i = choose|i: int| 0 <= i < d.len() && d[i] == x;
                    assert(d.push(last)[i] == x);
                }
            }
            assert(names[names.len() - 1] == last);
        }
        if !d.contains(last) {
            assert forall|i: int, j: int|
                0 <= i < d.push(last).len() && 0 <= j < d.push(last).len() && i != j implies d.push(
                last,
            )[i] != d.push(last)[j] by {
                if i == d.len() {
                    assert(d[j] == d.push(last)[j]);
                } else if j == d.len() {
                    assert(d[i] == d.push(last)[i]);
                }
            }
        }
    }
}

} // verus!
