use arendal::ast::{Assignment, BStmt, BinaryOp, EqNoPosition, Expr, Expression, Module, TLAssignment, TypeDefinition, TypeDfn};
use arendal::error::{Error, Loc};
use arendal::integer::Integer;
use arendal::parser::parse;
use arendal::symbol::{Symbol, TSymbol, Visibility};
use arendal::tokenizer::Enclosure;

fn check_module(input: &str, expected: Module) {
    let module = parse(input).unwrap();
    assert_eq!(module, expected, "Left=Actual; Right=Expected")
}

fn check_expression(input: &str, expected: Expression) {
    let mut module = Module::new();
    module.expressions.push(expected);
    check_module(input, module)
}

fn check_expressions(input: &str, expected: Vec<Expression>) {
    let mut module = Module::new();
    module.expressions = expected;
    check_module(input, module)
}

fn expect_error(input: &str, expected: &Error) {
    match parse(input) {
        Ok(_) => panic!("Parsed correctly but expected {:?}", expected),
        Err(e) => assert!(
            e.errors.iter().any(|x| &x.it == expected),
            "Expected {:?} but error was {:?}",
            expected,
            e
        ),
    }
}

fn e(expr: Expr) -> Expression {
    Expression { loc: Loc::none(), expr }
}

fn sym(s: &str) -> Symbol {
    Symbol::new(&Loc::none(), s).unwrap()
}

fn tsym(s: &str) -> TSymbol {
    TSymbol::new(&Loc::none(), s).unwrap()
}

fn e_i64(value: i64) -> Expression {
    e(Expr::LitInteger(Integer::from_i64(value)))
}

fn e_sym(s: &str) -> Expression {
    e(Expr::Symbol(sym(s)))
}

fn e_tsym(s: &str) -> Expression {
    e(Expr::TSymbol(tsym(s)))
}

fn binary(op: BinaryOp, a: Expression, b: Expression) -> Expression {
    e(Expr::Binary(op, Box::new(a), Box::new(b)))
}

fn add(a: Expression, b: Expression) -> Expression {
    binary(BinaryOp::Add, a, b)
}

fn add_i64(a: i64, b: i64) -> Expression {
    add(e_i64(a), e_i64(b))
}

fn tl_assignment(name: &str, expr: Expression) -> TLAssignment {
    TLAssignment {
        loc: Loc::none(),
        visibility: Visibility::Module,
        assignment: Assignment { symbol: sym(name), expr },
    }
}

#[test]
fn int_literal_expr() {
    check_expression("1234", e_i64(1234));
}

#[test]
fn add4() {
    check_expression("1 + 2 + 3", add(add_i64(1, 2), e_i64(3)));
}

#[test]
fn add5() {
    check_expression("1 +\t2 + 3\n+ 4", add(add(add_i64(1, 2), e_i64(3)), e_i64(4)));
}

#[test]
fn lit_type() {
    check_expression("  True ", e_tsym("True"));
}

#[test]
fn add_id() {
    check_expression("1 +x", add(e_i64(1), e_sym("x")));
}

#[test]
fn multiple1() {
    check_expressions("1\n2", vec![e_i64(1), e_i64(2)]);
}

#[test]
fn multiple2() {
    expect_error("1 2", &Error::EndOfItemExpected)
}

#[test]
fn logical_ops() {
    check_expression(
        "True || False && True",
        binary(BinaryOp::Or, e_tsym("True"), binary(BinaryOp::And, e_tsym("False"), e_tsym("True"))),
    );
}

#[test]
fn typedef_singleton() {
    let mut module = Module::new();
    module.types.push(TypeDefinition { loc: Loc::none(), symbol: tsym("Red"), dfn: TypeDfn::Singleton });
    check_module("type Red", module);
}

#[test]
fn precedence_of_operators() {
    check_expression(
        "1 + 2 * 3 != 7 || a < b",
        binary(
            BinaryOp::Or,
            binary(BinaryOp::NEq, add(e_i64(1), binary(BinaryOp::Mul, e_i64(2), e_i64(3))), e_i64(7)),
            binary(BinaryOp::LT, e_sym("a"), e_sym("b")),
        ),
    );
}

#[test]
fn conditional_and_then() {
    check_expression(
        "if a then 1 else 2",
        e(Expr::Conditional(Box::new(e_sym("a")), Box::new(e_i64(1)), Box::new(e_i64(2)))),
    );
    check_expression(
        "1 then 2 then 3",
        e(Expr::Then(Box::new(e(Expr::Then(Box::new(e_i64(1)), Box::new(e_i64(2))))), Box::new(e_i64(3)))),
    );
    expect_error("if a 1 else 2", &Error::KeywordExpected(arendal::keyword::Keyword::Then));
    expect_error("if a then 1", &Error::KeywordExpected(arendal::keyword::Keyword::Else));
}

#[test]
fn top_level_assignments() {
    let mut module = Module::new();
    module.assignments.push(tl_assignment("x", e_i64(1)));
    module.expressions.push(e_sym("x"));
    check_module("let x = 1\nx", module);
    expect_error("let 1 = 2", &Error::LValueExpected);
    expect_error("let x 2", &Error::AssignmentExpected);
    expect_error("type x", &Error::TSymbolAfterTypeExpected);
    expect_error("1 +", &Error::ExpressionExpected);
    expect_error("(1 + 2", &Error::CloseExpected(Enclosure::Parens));
}

#[test]
fn visibility_keywords_read_from_the_keyword() {
    // After `pub` or `pkg` the definition is read from the keyword itself on,
    // so `pub let x = 1` reads the keyword `let` where a name is expected.
    expect_error("pub let x = 1", &Error::LValueExpected);
    expect_error("pkg type Red", &Error::TSymbolAfterTypeExpected);
    expect_error("pub 1", &Error::ExpressionNotExpected);
}

#[test]
fn errors_are_located() {
    match parse("1 2") {
        Ok(_) => panic!(),
        Err(e) => {
            assert_eq!(e.errors.len(), 1);
            assert_eq!(e.errors[0].loc.pos(), Some(2));
        }
    }
}

fn first_expression(input: &str) -> Expression {
    parse(input).unwrap().expressions.remove(0)
}

#[test]
fn eq_nopos_ignores_locations() {
    let a = first_expression("1 + x");
    let b = first_expression("  1   +x");
    assert!(a.eq_nopos(&b));
    assert!(b.eq_nopos(&a));
    assert!(a.eq_nopos(&e(Expr::Binary(BinaryOp::Add, Box::new(e_i64(1)), Box::new(e_sym("x"))))));
}

#[test]
fn eq_nopos_sees_differences() {
    let a = first_expression("1 + x");
    assert!(!a.eq_nopos(&first_expression("1 + y")));
    assert!(!a.eq_nopos(&first_expression("2 + x")));
    assert!(!a.eq_nopos(&first_expression("1 - x")));
    assert!(!a.eq_nopos(&first_expression("x + 1")));
}

#[test]
fn eq_nopos_blocks() {
    let a = first_expression("{ let x = 1\n x + 2 }");
    assert!(a.eq_nopos(&first_expression("{let x=1\nx+2}")));
    assert!(!a.eq_nopos(&first_expression("{ let y = 1\n y + 2 }")));
    assert!(!a.eq_nopos(&first_expression("{ let x = 1\n x + 2\n x }")));
    let v1 = vec![first_expression("1"), first_expression("True")];
    let v2 = vec![first_expression(" 1"), first_expression("  True")];
    let v3 = vec![first_expression(" 1")];
    assert!(v1.eq_nopos(&v2));
    assert!(!v1.eq_nopos(&v3));
}

#[test]
fn double_equals_is_equals_then_assignment() {
    expect_error("1 == 1", &Error::ExpressionExpected);
}
