use std::sync::Arc;

use lib::data::{rc, rcs, Commands, Coredata, Source, Sourcedata, Statement};
use lib::env::{Deparize, Env};
use lib::stack::{deparize_in, err, find_earliest_depar, optimize_tail_call, pop_parameters, unwind};

fn num(n: i128) -> Statement {
    rcs(Coredata::Integer(n))
}

fn name(s: &str) -> String {
    s.to_string()
}

fn deparize_of(names: &[&str]) -> Deparize {
    let mut d = Deparize::default();
    for n in names {
        d.check_preexistence_and_merge_single(&name(n));
    }
    d
}

fn names_of(d: &Deparize) -> Vec<String> {
    d.names().clone()
}

fn store_names(env: &Env) -> Vec<(String, i128)> {
    env.store
        .iter()
        .map(|(n, v)| {
            (n.clone(), if let Coredata::Integer(i) = v.1 { i } else { -1 })
        })
        .collect()
}

#[test]
fn store_push_and_pop() {
    let mut env = Env::new();
    env.push(name("x"), num(1));
    env.push(name("y"), num(2));
    env.push(name("x"), num(3));
    assert_eq!(env.pop(&name("x")), Some(num(3)));
    assert_eq!(store_names(&env), vec![(name("x"), 1), (name("y"), 2)]);
    assert_eq!(env.pop(&name("z")), None);
    assert_eq!(env.pop(&name("x")), Some(num(1)));
    assert_eq!(env.pop(&name("x")), None);
    assert_eq!(store_names(&env), vec![(name("y"), 2)]);
}

#[test]
fn merging_names() {
    let mut d = Deparize::default();
    assert!(!d.check_preexistence_and_merge_single(&name("a")));
    assert!(!d.check_preexistence_and_merge_single(&name("b")));
    assert!(d.check_preexistence_and_merge_single(&name("a")));
    assert_eq!(names_of(&d), vec![name("a"), name("b")]);
}

#[test]
fn popping_parameters() {
    let mut env = Env::new();
    env.push(name("a"), num(1));
    env.push(name("b"), num(2));
    env.push(name("a"), num(3));
    let mut program = vec![num(0)];
    pop_parameters(&mut program, &mut env, &deparize_of(&["a", "b"]));
    assert_eq!(store_names(&env), vec![(name("a"), 1)]);
    assert_eq!(program, vec![num(0)]);
}

#[test]
fn unwinding_to_wind() {
    let mut env = Env::new();
    env.push(name("x"), num(1));
    env.push(name("x"), num(2));
    env.params.push(vec![num(10)]);
    env.params.push(vec![num(20), num(30)]);
    let below = num(99);
    let mut program = vec![
        below.clone(),
        rcs(Coredata::Internal(Commands::Wind)),
        rcs(Coredata::Internal(Commands::Deparize(deparize_of(&["x"])))),
        rcs(Coredata::Internal(Commands::Call(2))),
        num(5),
    ];
    assert!(unwind(&mut program, &mut env).is_none());
    assert_eq!(program, vec![below]);
    assert_eq!(env.params, vec![vec![num(10)]]);
    assert_eq!(store_names(&env), vec![(name("x"), 1)]);
    assert_eq!(*env.result, Sourcedata(None, Coredata::Integer(30)));
}

#[test]
fn unwinding_without_wind_empties_program() {
    let mut env = Env::new();
    env.params.push(vec![]);
    let mut program = vec![num(1), rcs(Coredata::Internal(Commands::Call(0))), num(2)];
    unwind(&mut program, &mut env);
    assert!(program.is_empty());
    assert!(env.params.is_empty());
    assert_eq!(*env.result, Sourcedata(None, Coredata::Null()));
    let mut none = Env::new();
    let mut program = vec![rcs(Coredata::Internal(Commands::Call(1)))];
    unwind(&mut program, &mut none);
    assert!(none.params.is_empty());
    assert!(program.is_empty());
}

#[test]
fn errors_unwind_with_a_trace() {
    let mut env = Env::new();
    env.params.push(vec![num(1)]);
    let mut program = vec![num(7), rcs(Coredata::Internal(Commands::Wind)), num(8)];
    let raised_at = Some(Source { line: 1, column: 2, source: name("f") });
    let error_at = Some(Source { line: 3, column: 4, source: name("g") });
    err(&raised_at, &Some((error_at, name("bad"))), &mut program, &mut env);
    assert_eq!(program, vec![num(7)]);
    assert_eq!(env.params, vec![vec![num(1)]]);
    assert_eq!(
        env.result.to_string(),
        "(error (list (list () 7) (list () ) (list () 8) (list (list 1 2 (\" f)) (\" called from here)) (list (list 3 4 (\" g)) (\" bad))))"
    );
}

#[test]
fn errors_at_the_same_place_or_without_place() {
    let place = Some(Source { line: 5, column: 6, source: name("h") });
    let mut env = Env::new();
    let mut program = vec![rcs(Coredata::Internal(Commands::Wind))];
    err(&place, &Some((place.clone(), name("oops"))), &mut program, &mut env);
    assert_eq!(env.result.to_string(), "(error (list (list () ) (list (list 5 6 (\" h)) (\" oops))))");
    assert!(env.params.is_empty());
    let mut env = Env::new();
    let mut program = vec![];
    err(&place, &Some((None, name("lost"))), &mut program, &mut env);
    assert_eq!(env.result.to_string(), "(error (list (list (list 5 6 (\" h)) (\" lost))))");
    let mut env = Env::new();
    let mut program = vec![];
    err(&None, &Some((None, name("nowhere"))), &mut program, &mut env);
    assert_eq!(env.result.to_string(), "(error (list (list () (\" nowhere))))");
}

#[test]
fn no_error_changes_nothing() {
    let mut env = Env::new();
    env.params.push(vec![num(1)]);
    let mut program = vec![num(7), rcs(Coredata::Internal(Commands::Wind))];
    err(&None, &None, &mut program, &mut env);
    assert_eq!(program.len(), 2);
    assert_eq!(env.params, vec![vec![num(1)]]);
    assert_eq!(*env.result, Sourcedata(None, Coredata::Null()));
}

#[test]
fn tail_call_merges_into_pending_parameters() {
    let mut env = Env::new();
    env.push(name("x"), num(1));
    env.push(name("y"), num(2));
    env.push(name("x"), num(10));
    let mut program = vec![num(0), rcs(Coredata::Internal(Commands::Deparize(deparize_of(&["x", "y"]))))];
    let merged = optimize_tail_call(&mut program, &mut env, &[name("x"), name("z")]);
    assert_eq!(names_of(&merged), vec![name("x"), name("y"), name("z")]);
    assert_eq!(program, vec![num(0)]);
    assert_eq!(store_names(&env), vec![(name("x"), 1), (name("y"), 2)]);
}

#[test]
fn tail_call_without_pending_parameters() {
    let mut env = Env::new();
    env.push(name("x"), num(1));
    let mut program = vec![num(0)];
    let merged = optimize_tail_call(&mut program, &mut env, &[name("x"), name("x"), name("w")]);
    assert_eq!(names_of(&merged), vec![name("x"), name("w")]);
    assert_eq!(program, vec![num(0)]);
    assert_eq!(store_names(&env), vec![(name("x"), 1)]);
    let mut empty: Vec<Statement> = vec![];
    let merged = optimize_tail_call(&mut empty, &mut env, &[name("q")]);
    assert_eq!(names_of(&merged), vec![name("q")]);
    assert!(empty.is_empty());
}

#[test]
fn earliest_parameter_list() {
    let mut program = vec![
        rcs(Coredata::Internal(Commands::Deparize(deparize_of(&["a"])))),
        rcs(Coredata::Internal(Commands::Deparize(deparize_of(&["b"])))),
        num(1),
    ];
    let shared: Arc<Sourcedata> = program[1].clone();
    {
        let (found, _) = find_earliest_depar(&mut program);
        let found = found.expect("a parameter list owned by the program");
        assert_eq!(names_of(found), vec![name("a")]);
        found.check_preexistence_and_merge_single(&name("c"));
    }
    if let Coredata::Internal(Commands::Deparize(ref d)) = program[0].1 {
        assert_eq!(names_of(d), vec![name("a"), name("c")]);
    } else {
        panic!("the bottom of the program changed kind");
    }
    drop(shared);
    let (found, _) = find_earliest_depar(&mut program);
    let found = found.expect("a parameter list owned by the program");
    assert_eq!(names_of(found), vec![name("b")]);
    let mut none = vec![num(1), rc(Sourcedata(None, Coredata::Null()))];
    assert!(find_earliest_depar(&mut none).0.is_none());
}

#[test]
fn parameter_list_of_a_value() {
    let mut value = Sourcedata(None, Coredata::Internal(Commands::Deparize(deparize_of(&["a"]))));
    {
        let found = deparize_in(&mut value).expect("the value is a parameter list");
        assert_eq!(names_of(found), vec![name("a")]);
        found.check_preexistence_and_merge_single(&name("b"));
    }
    if let Coredata::Internal(Commands::Deparize(ref d)) = value.1 {
        assert_eq!(names_of(d), vec![name("a"), name("b")]);
    } else {
        panic!("the value changed kind");
    }
    let mut other = Sourcedata(None, Coredata::Internal(Commands::Wind));
    assert!(deparize_in(&mut other).is_none());
    assert_eq!(other, Sourcedata(None, Coredata::Internal(Commands::Wind)));
}
