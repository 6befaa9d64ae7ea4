use arendal::checker::Binding;
use arendal::error::{Error, ErrorVec};
use arendal::parser::parse;
use arendal::program::{check_package, Package};
use arendal::symbol::TSymbol;
use arendal::types::Type;

fn check_module(input: &str) -> Result<Package, ErrorVec> {
    let parsed = parse(input)?;
    let types: Vec<TSymbol> = Vec::new();
    let globals: Vec<Binding> = Vec::new();
    check_package(&types, &globals, &parsed)
}

fn error(input: &str, error: &Error) {
    match check_module(input) {
        Ok(_) => panic!("Expected Error: {:?}", error),
        Err(e) => assert!(
            e.errors.iter().any(|x| &x.it == error),
            "Expected Error: {:?} - Actual Error: {:?}",
            error,
            e
        ),
    }
}

fn mismatch(input: &str, expected: Type, actual: Type) {
    error(input, &Error::TypeMismatch(expected, actual))
}

fn ok_expression(input: &str, t: Type) {
    assert_eq!(check_module(input).unwrap().exprs.iter().next().unwrap().type_of(), t);
}

fn ok_int(input: &str) {
    ok_expression(input, Type::Integer);
}

#[test]
fn blocks() {
    ok_int("{ let x = 1\n x+2 }")
}

#[test]
fn std_singleton() {
    ok_expression("True", Type::True);
}

#[test]
fn mismatch1() {
    mismatch("1 + True", Type::Integer, Type::True)
}

#[test]
fn mismatch2() {
    mismatch("1 && True", Type::Boolean, Type::Integer)
}

#[test]
fn conditionals() {
    ok_int("if True then 1 else 2");
    mismatch("if 0 then 1 else 2", Type::Boolean, Type::Integer);
    mismatch("if True then 1 else False", Type::Integer, Type::False);
}

#[test]
fn both_operands_are_reported() {
    match check_module("True + False") {
        Ok(_) => panic!(),
        Err(e) => {
            assert_eq!(e.errors.len(), 2);
            assert_eq!(e.errors[0].it, Error::TypeMismatch(Type::Integer, Type::True));
            assert_eq!(e.errors[1].it, Error::TypeMismatch(Type::Integer, Type::False));
        }
    }
}

#[test]
fn logical_and_then_types() {
    ok_expression("True && False", Type::Boolean);
    ok_expression("(True || False) || True", Type::Boolean);
    ok_expression("1 then True", Type::True);
    ok_expression("{ 1\n False }", Type::False);
    ok_expression("{ }", Type::Unit);
}

#[test]
fn comparisons_are_not_typed_yet() {
    error("1 < 2", &Error::InvalidType);
    error("1 != 1", &Error::InvalidType);
}

#[test]
fn unknown_and_duplicate_names() {
    let x = arendal::symbol::Symbol::new(&arendal::error::Loc::none(), "x").unwrap();
    error("x + 1", &Error::UnknownSymbol(x.duplicate()));
    error("{ let x = 1\n let x = 2\n x }", &Error::DuplicateLocalSymbol(x.duplicate()));
    error("let x = 1\nlet x = 2", &Error::DuplicateSymbol(x.duplicate()));
    error("let x = x + 1", &Error::CircularDefinition(x));
}

#[test]
fn singleton_types() {
    let red = TSymbol::new(&arendal::error::Loc::none(), "Red").unwrap();
    ok_expression("type Red\nRed", Type::Singleton(red.duplicate()));
    ok_expression("None", Type::Unit);
    error("Red", &Error::UnknownLocalType(red.duplicate()));
    error("Integer", &Error::SingletonExpected(Type::Integer));
    error("Boolean", &Error::SingletonExpected(Type::Boolean));
    error("type Red\ntype Red", &Error::DuplicateType(red));
    let tt = TSymbol::new(&arendal::error::Loc::none(), "True").unwrap();
    error("type True", &Error::DuplicateType(tt));
}

#[test]
fn globals_are_checked_in_dependency_order() {
    let p = check_module("let a = b + 1\nlet b = 2\na").unwrap();
    let names: Vec<&str> = p.assignments.iter().map(|a| a.symbol.as_str()).collect();
    assert_eq!(names, vec!["b", "a"]);
    assert_eq!(p.exprs[0].type_of(), Type::Integer);
}

#[test]
fn arithmetic_checks() {
    ok_int("1234");
    ok_int("1 + 2");
    ok_int("1 + 2 + 3");
    ok_int("1- 2");
}

#[test]
fn every_duplicate_definition_is_reported() {
    let a = TSymbol::new(&arendal::error::Loc::none(), "A").unwrap();
    let x = arendal::symbol::Symbol::new(&arendal::error::Loc::none(), "x").unwrap();
    let e = check_module("type A\ntype A\nlet x = 1\nlet x = 2\ntype A\ntype A\nlet x = 3").unwrap_err();
    let kinds: Vec<Error> = e.errors.iter().map(|l| l.it.clone()).collect();
    assert_eq!(
        kinds,
        vec![
            Error::DuplicateType(a.clone()),
            Error::DuplicateType(a.clone()),
            Error::DuplicateType(a),
            Error::DuplicateSymbol(x.clone()),
            Error::DuplicateSymbol(x),
        ]
    );
}
