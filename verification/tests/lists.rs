use std::sync::Arc;

use lib::data::{data_name, rc, rcs, Commands, Coredata, Function, Macro, Source, Sourcedata};
use lib::env::{Deparize, Env};
use lib::lists::{
    collect_cell_into_revvec, collect_cell_of_symbols_into_vec, internal_trace, program_to_cells,
};

fn num(n: i128) -> Arc<Sourcedata> {
    rcs(Coredata::Integer(n))
}

fn sym(s: &str) -> Arc<Sourcedata> {
    rcs(Coredata::Symbol(s.to_string()))
}

fn ints(values: &[i128]) -> Vec<Arc<Sourcedata>> {
    values.iter().map(|v| num(*v)).collect()
}

#[test]
fn program_round_trip() {
    let program = ints(&[1, 2, 3, 4]);
    let cells = program_to_cells(&program);
    assert_eq!(collect_cell_into_revvec(&cells), program);
    assert_eq!(cells.len(), Some(4));
    assert_eq!(cells.head(), Some(num(4)));
    let empty = program_to_cells(&vec![]);
    assert_eq!(*empty, Sourcedata(None, Coredata::Null()));
    assert_eq!(collect_cell_into_revvec(&empty), vec![]);
    assert_eq!(empty.len(), Some(0));
}

#[test]
fn revvec_reverses_heads() {
    let list = rcs(Coredata::Cell(num(1), rcs(Coredata::Cell(num(2), num(9)))));
    assert_eq!(collect_cell_into_revvec(&list), ints(&[2, 1]));
    assert_eq!(collect_cell_into_revvec(&num(5)), vec![]);
}

#[test]
fn head_tail_len() {
    let cell = Sourcedata(None, Coredata::Cell(num(1), num(2)));
    assert_eq!(cell.head(), Some(num(1)));
    assert_eq!(cell.tail(), Some(num(2)));
    assert_eq!(cell.len(), None);
    let scalar = Sourcedata(None, Coredata::Boolean(true));
    assert_eq!(scalar.head(), None);
    assert_eq!(scalar.tail(), None);
    assert_eq!(scalar.len(), None);
    assert_eq!(Sourcedata(None, Coredata::String("héllo".to_string())).len(), Some(5));
    assert_eq!(Sourcedata(None, Coredata::String("é".to_string())).len(), Some(1));
    assert_eq!(Sourcedata(None, Coredata::String(String::new())).len(), Some(0));
    assert_eq!(Sourcedata(None, Coredata::Null()).len(), Some(0));
}

#[test]
fn symbols_into_vec() {
    let list = rcs(Coredata::Cell(sym("a"), rcs(Coredata::Cell(sym("b"), rcs(Coredata::Null())))));
    assert_eq!(
        collect_cell_of_symbols_into_vec(&list),
        Some(vec!["a".to_string(), "b".to_string()])
    );
    assert_eq!(collect_cell_of_symbols_into_vec(&rcs(Coredata::Null())), Some(vec![]));
    assert_eq!(collect_cell_of_symbols_into_vec(&num(1)), None);
    let not_symbol = rcs(Coredata::Cell(sym("a"), rcs(Coredata::Cell(num(1), rcs(Coredata::Null())))));
    assert_eq!(collect_cell_of_symbols_into_vec(&not_symbol), None);
    let improper = rcs(Coredata::Cell(sym("a"), num(3)));
    assert_eq!(collect_cell_of_symbols_into_vec(&improper), Some(vec!["a".to_string()]));
}

#[test]
fn names_of_kinds() {
    let cases: Vec<(Coredata, &str)> = vec![
        (Coredata::Boolean(false), "Boolean"),
        (Coredata::Cell(num(1), num(2)), "Cell"),
        (Coredata::Error(num(1)), "Error"),
        (Coredata::Function(Function::Builtin(0, "f".to_string())), "Builtin Function"),
        (Coredata::Function(Function::Library(vec![], vec![])), "Function"),
        (Coredata::Integer(3), "Integer"),
        (Coredata::Internal(Commands::Wind), "Internal"),
        (Coredata::Macro(Macro::Builtin(0, "m".to_string())), "Macro"),
        (Coredata::Macro(Macro::Library("p".to_string(), vec![])), "Macro"),
        (Coredata::Null(), "Null"),
        (Coredata::String("s".to_string()), "String"),
        (Coredata::Symbol("s".to_string()), "Symbol"),
        (Coredata::Table(vec![]), "Table"),
    ];
    for (data, name) in cases {
        assert_eq!(data_name(&Sourcedata(None, data)), name);
    }
}

#[test]
fn source_as_list() {
    let src = Source { line: 3, column: 14, source: "main".to_string() };
    let list: Arc<Sourcedata> = Arc::from(&src);
    assert_eq!(list.to_string(), "(list 3 14 (\" main))");
    assert_eq!(list.len(), Some(3));
}

#[test]
fn trace_of_program() {
    let placed = rc(Sourcedata(
        Some(Source { line: 1, column: 2, source: "f".to_string() }),
        Coredata::Symbol("x".to_string()),
    ));
    let mut program = vec![placed, num(5)];
    let before = program.clone();
    let mut env = Env::new();
    let trace = internal_trace(&mut program, &mut env);
    assert_eq!(program, before);
    assert_eq!(trace.to_string(), "(list (list (list 1 2 (\" f)) (@ x)) (list () 5))");
    assert_eq!(trace.len(), Some(2));
    let empty = internal_trace(&mut vec![], &mut env);
    assert_eq!(*empty, Sourcedata(None, Coredata::Null()));
}

#[test]
fn equality_ignores_position_and_routine() {
    let here = Some(Source { line: 1, column: 1, source: "a".to_string() });
    assert_eq!(Sourcedata(here, Coredata::Integer(1)), Sourcedata(None, Coredata::Integer(1)));
    assert_ne!(Sourcedata(None, Coredata::Integer(1)), Sourcedata(None, Coredata::Integer(2)));
    assert_eq!(
        Coredata::Function(Function::Builtin(1, "f".to_string())),
        Coredata::Function(Function::Builtin(2, "f".to_string()))
    );
    assert_ne!(
        Coredata::Function(Function::Builtin(1, "f".to_string())),
        Coredata::Function(Function::Library(vec![], vec![]))
    );
    assert_eq!(
        Coredata::Function(Function::Library(vec!["a".to_string()], vec![num(1)])),
        Coredata::Function(Function::Library(vec!["a".to_string()], vec![num(1)]))
    );
    assert_ne!(
        Coredata::Function(Function::Library(vec!["a".to_string()], vec![num(1)])),
        Coredata::Function(Function::Library(vec!["a".to_string()], vec![num(1), num(1)]))
    );
    assert_ne!(
        Coredata::Macro(Macro::Library("a".to_string(), vec![num(1)])),
        Coredata::Macro(Macro::Library("b".to_string(), vec![num(1)]))
    );
    assert_eq!(Coredata::Cell(num(1), num(2)), Coredata::Cell(num(1), num(2)));
    assert_ne!(Coredata::Cell(num(1), num(2)), Coredata::Cell(num(2), num(1)));
    assert_eq!(Coredata::Null(), Coredata::Null());
    assert_ne!(Coredata::Null(), Coredata::Boolean(false));
    assert_eq!(
        Coredata::Table(vec![("k".to_string(), num(1))]),
        Coredata::Table(vec![("k".to_string(), num(1))])
    );
    assert_ne!(
        Coredata::Table(vec![("k".to_string(), num(1))]),
        Coredata::Table(vec![("j".to_string(), num(1))])
    );
    let mut d1 = Deparize::default();
    d1.check_preexistence_and_merge_single(&"x".to_string());
    let mut d2 = Deparize::default();
    assert_ne!(Coredata::Internal(Commands::Deparize(d1.clone())), Coredata::Internal(Commands::Deparize(d2.clone())));
    d2.check_preexistence_and_merge_single(&"x".to_string());
    assert_eq!(Coredata::Internal(Commands::Deparize(d1)), Coredata::Internal(Commands::Deparize(d2)));
    assert_eq!(Coredata::Internal(Commands::Call(2)), Coredata::Internal(Commands::Call(2)));
    assert_ne!(Coredata::Internal(Commands::Call(2)), Coredata::Internal(Commands::Wind));
}
