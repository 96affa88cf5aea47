use lib::data::{rcs, Commands, Coredata, Function, Macro, Source, Sourcedata};
use lib::env::Deparize;
use lib::lists::program_to_cells;

fn test_string(input: &str, output: &str) {
    assert_eq![output, Sourcedata(None, Coredata::String(input.to_string())).to_string()];
}

fn printed(data: Coredata) -> String {
    Sourcedata(None, data).to_string()
}

#[test]
fn string_writing() {
    test_string("", "(\")");
    test_string(" ", "(\" (32))");
    test_string(" X", "(\" (32)X)");
    test_string("X Y", "(\" X Y)");
    test_string(" X Y", "(\" (32)X Y)");
    test_string(" X Y\n", "(\" (32)X Y(10))");
    test_string("Lorem ipsum dolor sit amet", "(\" Lorem ipsum dolor sit amet)");
    test_string("  \n  ", "(\" (32 2)(10)(32 2))");
    test_string("  \n", "(\" (32 2)(10))");
    test_string(" \n", "(\" (32)(10))");
    test_string(" \n\t", "(\" (32)(10)(9))");
    test_string(" \n\n\t", "(\" (32)(10 2)(9))");
    test_string("A\n\n\t", "(\" A(10 2)(9))");
    test_string("A\n\nBC\t", "(\" A(10 2)BC(9))");
    test_string("A\nD\nBC\t", "(\" A(10)D(10)BC(9))");
}

#[test]
fn string_brackets_and_control_characters() {
    test_string("a(b)c", "(\" a(40)b(41)c)");
    test_string("x\u{a0}y", "(\" x(160)y)");
    test_string("x\u{85}\u{85}\u{85}", "(\" x(133 3))");
    test_string("\u{7f}", "(\" (127))");
    test_string("\u{9f}\u{a1}", "(\" (159)\u{a1})");
    test_string("a  b", "(\" a(32 2)b)");
    test_string("a \tb", "(\" a(32)(9)b)");
    test_string("a ", "(\" a(32))");
    test_string("\u{3000}", "(\" (12288))");
    test_string("é ü", "(\" é ü)");
}

#[test]
fn scalars() {
    assert_eq!(printed(Coredata::Integer(0)), "0");
    assert_eq!(printed(Coredata::Integer(-1234)), "-1234");
    assert_eq!(printed(Coredata::Integer(i128::MIN)), "-170141183460469231731687303715884105728");
    assert_eq!(printed(Coredata::Integer(i128::MAX)), "170141183460469231731687303715884105727");
    assert_eq!(printed(Coredata::Boolean(true)), "true");
    assert_eq!(printed(Coredata::Boolean(false)), "false");
    assert_eq!(printed(Coredata::Null()), "()");
    assert_eq!(printed(Coredata::Symbol("x".to_string())), "(@ x)");
    assert_eq!(printed(Coredata::Function(Function::Builtin(3, "print".to_string()))), "print");
    assert_eq!(printed(Coredata::Macro(Macro::Builtin(0, "if".to_string()))), "if");
    assert_eq!(printed(Coredata::Internal(Commands::Wind)), "");
    assert_eq!(printed(Coredata::Internal(Commands::Deparize(Deparize::default()))), "");
    assert_eq!(printed(Coredata::Table(vec![("k".to_string(), rcs(Coredata::Null()))])), "");
}

#[test]
fn lists() {
    let items = vec![
        rcs(Coredata::Integer(1)),
        rcs(Coredata::Integer(2)),
        rcs(Coredata::Integer(3)),
    ];
    assert_eq!(program_to_cells(&items).to_string(), "(list 3 2 1)");
    let inner = rcs(Coredata::Cell(rcs(Coredata::Integer(1)), rcs(Coredata::Null())));
    assert_eq!(printed(Coredata::Cell(inner, rcs(Coredata::Null()))), "(list (list 1))");
    let improper = Coredata::Cell(rcs(Coredata::Integer(1)), rcs(Coredata::Integer(2)));
    assert_eq!(printed(improper), "(list 1 2)");
    let with_symbol = Coredata::Cell(rcs(Coredata::Symbol("a".to_string())), rcs(Coredata::Null()));
    assert_eq!(printed(with_symbol), "(list (@ a))");
}

#[test]
fn errors() {
    assert_eq!(printed(Coredata::Error(rcs(Coredata::Null()))), "(error)");
    assert_eq!(printed(Coredata::Error(rcs(Coredata::String("x".to_string())))), "(error (\" x))");
    assert_eq!(printed(Coredata::Error(rcs(Coredata::Integer(7)))), "(error 7)");
}

fn call_of(names: &[&str]) -> lib::data::Statement {
    let items: Vec<_> = names.iter().map(|n| rcs(Coredata::Symbol(n.to_string()))).collect();
    let mut top = rcs(Coredata::Null());
    for item in items.into_iter().rev() {
        top = rcs(Coredata::Cell(item, top));
    }
    top
}

#[test]
fn functions_and_macros() {
    let function = Function::Library(
        vec!["a".to_string(), "b".to_string()],
        vec![call_of(&["+", "a", "b"])],
    );
    assert_eq!(printed(Coredata::Function(function)), "(function (a b) (+ a b))");
    let two_statements = Function::Library(
        vec![],
        vec![call_of(&["second"]), call_of(&["first", "x"])],
    );
    assert_eq!(printed(Coredata::Function(two_statements)), "(function () (first x) (second))");
    let nested = Function::Library(
        vec!["f".to_string()],
        vec![rcs(Coredata::Cell(call_of(&["f"]), rcs(Coredata::Null())))],
    );
    assert_eq!(printed(Coredata::Function(nested)), "(function (f) ((f)))");
    let with_literal = Function::Library(
        vec![],
        vec![rcs(Coredata::Cell(
            rcs(Coredata::Symbol("g".to_string())),
            rcs(Coredata::Cell(rcs(Coredata::Integer(1)), rcs(Coredata::Null()))),
        ))],
    );
    assert_eq!(printed(Coredata::Function(with_literal)), "(function () (g 1))");
    let macro_value = Macro::Library("args".to_string(), vec![rcs(Coredata::Symbol("args".to_string()))]);
    assert_eq!(printed(Coredata::Macro(macro_value)), "(macro args args)");
    let empty_code = Function::Library(vec!["x".to_string()], vec![]);
    assert_eq!(printed(Coredata::Function(empty_code)), "(function (x))");
}

#[test]
fn debug_texts() {
    let function = Function::Library(
        vec!["a".to_string(), "b".to_string()],
        vec![rcs(Coredata::Symbol("b".to_string())), rcs(Coredata::Integer(2))],
    );
    assert_eq!(
        function.debug_text(),
        "(fn (\"a\" \"b\") Sourcedata(None, Integer(2)) Sourcedata(None, Symbol(\"b\")))"
    );
    assert_eq!(Function::Library(vec![], vec![]).debug_text(), "(fn ())");
    assert_eq!(Function::Builtin(1, "+".to_string()).debug_text(), "+");
    let macro_value = Macro::Library("p".to_string(), vec![rcs(Coredata::Symbol("p".to_string()))]);
    assert_eq!(macro_value.debug_text(), "(macro \"p\" (@ p))");
    assert_eq!(Macro::Builtin(1, "quote".to_string()).debug_text(), "quote");
}

#[test]
fn debug_texts_quote_names() {
    let function = Function::Library(vec!["say \"hi\"".to_string()], vec![]);
    assert_eq!(function.debug_text(), "(fn (\"say \\\"hi\\\"\"))");
    let macro_value = Macro::Library("a\nb".to_string(), vec![]);
    assert_eq!(macro_value.debug_text(), "(macro \"a\\nb\")");
}

#[test]
fn debug_texts_show_statements_as_derived_debug() {
    let here = Some(Source { line: 4, column: 2, source: "x.lisp".to_string() });
    let statements = vec![
        rcs(Coredata::Null()),
        rcs(Coredata::Boolean(true)),
        rcs(Coredata::Integer(-17)),
        rcs(Coredata::String("tab\there".to_string())),
        std::sync::Arc::new(Sourcedata(
            here.clone(),
            Coredata::Cell(rcs(Coredata::Symbol("f".to_string())), rcs(Coredata::Null())),
        )),
        rcs(Coredata::Error(rcs(Coredata::Integer(3)))),
        rcs(Coredata::Table(vec![
            ("k".to_string(), rcs(Coredata::Integer(1))),
            ("v".to_string(), rcs(Coredata::Boolean(false))),
        ])),
        rcs(Coredata::Internal(Commands::Call(2))),
        rcs(Coredata::Internal(Commands::Wind)),
        rcs(Coredata::Internal(Commands::Deparize(Deparize::default()))),
    ];
    for statement in statements {
        let expected = format!("(fn (\"x\") {:?})", statement);
        let function = Function::Library(vec!["x".to_string()], vec![statement]);
        assert_eq!(function.debug_text(), expected);
    }
}

#[test]
fn debug_texts_nest_functions_and_macros() {
    let inner = Function::Library(vec!["y".to_string()], vec![rcs(Coredata::Integer(5))]);
    let quoted = Macro::Builtin(3, "quote".to_string());
    let outer = Function::Library(
        vec![],
        vec![rcs(Coredata::Macro(quoted)), rcs(Coredata::Function(inner))],
    );
    assert_eq!(
        outer.debug_text(),
        "(fn () Sourcedata(None, Function((fn (\"y\") Sourcedata(None, Integer(5))))) \
         Sourcedata(None, Macro(quote)))"
    );
}

#[test]
fn unicode_white_space_is_escaped() {
    test_string("a\u{1680}b", "(\" a(5760)b)");
    test_string("a\u{2000}\u{200a}b", "(\" a(8192)(8202)b)");
    test_string("\u{2028}\u{2029}\u{202f}\u{205f}", "(\" (8232)(8233)(8239)(8287))");
    test_string("a\u{180e}b", "(\" a\u{180e}b)");
    test_string("\u{b}\u{c}\r", "(\" (11)(12)(13))");
}

#[test]
fn different_strings_print_differently() {
    let texts = ["", " ", "  ", "(32)", "a b", "a  b", "a(32)b", "\n", "\n\n", "(10 2)"];
    let printed: Vec<String> = texts
        .iter()
        .map(|t| Sourcedata(None, Coredata::String(t.to_string())).to_string())
        .collect();
    for i in 0..texts.len() {
        for j in 0..texts.len() {
            assert_eq!(i == j, printed[i] == printed[j], "{:?} and {:?}", texts[i], texts[j]);
        }
    }
    test_string("(32)", "(\" (40)32(41))");
}

#[test]
fn equal_values_print_alike() {
    let here = Some(Source { line: 4, column: 2, source: "x".to_string() });
    let placed = Sourcedata(
        here.clone(),
        Coredata::Cell(
            std::sync::Arc::new(Sourcedata(here, Coredata::Integer(1))),
            rcs(Coredata::Null()),
        ),
    );
    let plain = Sourcedata(None, Coredata::Cell(rcs(Coredata::Integer(1)), rcs(Coredata::Null())));
    assert!(placed == plain);
    assert_eq!(placed.to_string(), plain.to_string());
    let one = Sourcedata(None, Coredata::Function(Function::Builtin(1, "f".to_string())));
    let two = Sourcedata(None, Coredata::Function(Function::Builtin(2, "f".to_string())));
    assert!(one == two);
    assert_eq!(one.to_string(), two.to_string());
}

fn list_of(items: Vec<lib::data::Statement>) -> lib::data::Statement {
    let mut list = rcs(Coredata::Null());
    for item in items.into_iter().rev() {
        list = rcs(Coredata::Cell(item, list));
    }
    list
}

#[test]
fn plain_values_read_back() {
    let int = |n: i128| rcs(Coredata::Integer(n));
    let values = vec![
        rcs(Coredata::Boolean(true)),
        rcs(Coredata::Boolean(false)),
        int(1),
        int(-1),
        int(12),
        rcs(Coredata::String("1".to_string())),
        rcs(Coredata::String("".to_string())),
        rcs(Coredata::String(" ) (".to_string())),
        rcs(Coredata::Null()),
        rcs(Coredata::Error(rcs(Coredata::Null()))),
        rcs(Coredata::Error(int(1))),
        rcs(Coredata::Error(list_of(vec![int(1)]))),
        list_of(vec![int(1)]),
        list_of(vec![int(1), int(2)]),
        list_of(vec![list_of(vec![int(1)]), int(2)]),
        list_of(vec![int(1), list_of(vec![int(2)])]),
        list_of(vec![rcs(Coredata::Null())]),
        list_of(vec![rcs(Coredata::Null()), rcs(Coredata::Null())]),
        list_of(vec![rcs(Coredata::String(") 2".to_string()))]),
        list_of(vec![rcs(Coredata::String(")".to_string())), int(2)]),
    ];
    let texts: Vec<String> = values.iter().map(|v| v.to_string()).collect();
    for i in 0..values.len() {
        for j in 0..values.len() {
            assert_eq!(i == j, texts[i] == texts[j], "{} and {}", texts[i], texts[j]);
            assert_eq!(i == j, *values[i] == *values[j]);
        }
    }
    assert_eq!(texts[15], "(list 1 (list 2))");
    assert_eq!(texts[11], "(error (list 1))");
}
