use arendal::ast::{Assignment, BStmt, BinaryOp, Expr, Expression, Module};
use arendal::checker::{check_expression, Binding};
use arendal::env::Env;
use arendal::error::{Error, ErrorVec, Loc};
use arendal::integer::Integer;
use arendal::parser::parse;
use arendal::program::{check_package, Package};
use arendal::symbol::{Symbol, TSymbol};
use arendal::types::Type;
use arendal::value::Value;

fn e(expr: Expr) -> Expression {
    Expression { loc: Loc::none(), expr }
}

fn e_i64(value: i64) -> Expression {
    e(Expr::LitInteger(Integer::from_i64(value)))
}

fn binary(op: BinaryOp, a: Expression, b: Expression) -> Expression {
    e(Expr::Binary(op, Box::new(a), Box::new(b)))
}

fn sym(s: &str) -> Symbol {
    Symbol::new(&Loc::none(), s).unwrap()
}

fn parses_to(input: &str, expected: Expression) {
    let mut module = Module::new();
    module.expressions.push(expected);
    assert_eq!(parse(input).unwrap(), module);
}

fn check_module(input: &str) -> Result<Package, ErrorVec> {
    let parsed = parse(input)?;
    let types: Vec<TSymbol> = Vec::new();
    let globals: Vec<Binding> = Vec::new();
    check_package(&types, &globals, &parsed)
}

fn checks_as(input: &str, t: Type) {
    assert_eq!(check_module(input).unwrap().exprs[0].type_of(), t);
}

fn expression_checks_as(expr: Expression, t: Type) {
    let none: Vec<Binding> = Vec::new();
    let types: Vec<TSymbol> = Vec::new();
    assert_eq!(check_expression(&none, &types, &none, &expr).unwrap().type_of(), t);
}

fn check_error(input: &str, error: &Error) {
    match check_module(input) {
        Ok(_) => panic!("Expected Error: {:?}", error),
        Err(x) => assert!(x.errors.iter().any(|y| &y.it == error)),
    }
}

fn runs_to(input: &str, v: Value) {
    let mut env = Env::new();
    assert_eq!(env.run(input).unwrap(), v);
}

#[test]
fn tests_add1() {
    parses_to("1+2", binary(BinaryOp::Add, e_i64(1), e_i64(2)));
    expression_checks_as(binary(BinaryOp::Add, e_i64(1), e_i64(2)), Type::Integer);
    checks_as("1 + 2", Type::Integer);
    runs_to("1+2", Value::from_i64(3));
}

#[test]
fn tests_add2() {
    parses_to("1 + 2", binary(BinaryOp::Add, e_i64(1), e_i64(2)));
    expression_checks_as(
        binary(BinaryOp::Add, binary(BinaryOp::Add, e_i64(1), e_i64(2)), e_i64(3)),
        Type::Integer,
    );
    checks_as("1 + 2 + 3", Type::Integer);
    runs_to("1 + 2 + 3", Value::from_i64(6));
}

#[test]
fn tests_add3() {
    parses_to("\t1 + 2", binary(BinaryOp::Add, e_i64(1), e_i64(2)));
}

#[test]
fn tests_sub1() {
    parses_to(
        "1 - 2 + 1",
        binary(BinaryOp::Add, binary(BinaryOp::Sub, e_i64(1), e_i64(2)), e_i64(1)),
    );
    expression_checks_as(binary(BinaryOp::Sub, e_i64(1), e_i64(2)), Type::Integer);
    checks_as("1- 2", Type::Integer);
    runs_to("1 - 2", Value::from_i64(-1));
}

#[test]
fn tests_integer() {
    expression_checks_as(e_i64(1234), Type::Integer);
    checks_as("1234", Type::Integer);
    runs_to("1234", Value::from_i64(1234));
}

#[test]
fn tests_mul1() {
    runs_to("1 + 2 * 2", Value::from_i64(5));
}

#[test]
fn tests_parens1() {
    parses_to(
        "(1 + 2) * 2",
        binary(BinaryOp::Mul, binary(BinaryOp::Add, e_i64(1), e_i64(2)), e_i64(2)),
    );
    runs_to("(1 + 2) * 2", Value::from_i64(6));
}

#[test]
fn tests_parens2() {
    runs_to("(((1 + 2) * 2) + 1) * 2", Value::from_i64(14));
}

#[test]
fn tests_conditional1() {
    runs_to("if True then 1 else 2", Value::from_i64(1));
}

#[test]
fn tests_block() {
    runs_to("let x = 1\n{ let y = x + 1\n y + 2\n}", Value::from_i64(4));
}

#[test]
fn tests_blocks() {
    parses_to("{ }", e(Expr::TSymbol(TSymbol::none())));
    parses_to("{ 1 }", e_i64(1));
    parses_to("{ 1\n2 }", e(Expr::Block(vec![BStmt::Expr(e_i64(1)), BStmt::Expr(e_i64(2))])));
    parses_to(
        "{ let x = 1\n x+2 }",
        e(Expr::Block(vec![
            BStmt::Assignment(Loc::none(), Assignment { symbol: sym("x"), expr: e_i64(1) }),
            BStmt::Expr(binary(BinaryOp::Add, e(Expr::Symbol(sym("x"))), e_i64(2))),
        ])),
    );
    for (input, error) in [("{ 1 2 }", Error::EndOfItemExpected), ("{ 1\n 2 ", Error::CloseExpected(arendal::tokenizer::Enclosure::Curly))] {
        match parse(input) {
            Ok(_) => panic!(),
            Err(x) => assert!(x.errors.iter().any(|y| y.it == error)),
        }
    }
}

#[test]
fn tests_assignment() {
    let m = parse("let x = 1").unwrap();
    assert_eq!(m.assignments.len(), 1);
    assert_eq!(m.assignments[0].assignment.symbol, sym("x"));
    assert_eq!(m.assignments[0].assignment.expr, e_i64(1));
    let m = parse("let x = y + 2").unwrap();
    assert_eq!(
        m.assignments[0].assignment.expr,
        binary(BinaryOp::Add, e(Expr::Symbol(sym("y"))), e_i64(2))
    );
}

#[test]
fn tests_empty1() {
    runs_to("", Value::v_none());
}

#[test]
fn tests_empty2() {
    runs_to(" \t\n", Value::v_none());
}

#[test]
fn tests_logical() {
    runs_to("(True || False) && True", Value::v_true());
}

#[test]
fn tests_std_singleton() {
    checks_as("True", Type::True);
}

#[test]
fn tests_mismatch1() {
    check_error("1 + True", &Error::TypeMismatch(Type::Integer, Type::True));
}

#[test]
fn tests_mismatch2() {
    check_error("1 && True", &Error::TypeMismatch(Type::Boolean, Type::Integer));
}
