use arendal::env::Env;
use arendal::error::{Error, ErrorVec};
use arendal::value::Value;
use arendal::checker::{TExpr, TE};
use arendal::error::Loc;
use arendal::interpreter::eval_expr;
use arendal::symbol::Symbol;
use arendal::types::Type;

fn eval_module(input: &str) -> Result<Value, ErrorVec> {
    let mut env = Env::new();
    env.run(input)
}

fn eval_ok(input: &str, result: Value) {
    match eval_module(input) {
        Ok(value) => assert_eq!(value, result),
        Err(e) => panic!("Error evaluating expression {:?}", e),
    }
}

fn eval_i64(input: &str, result: i64) {
    eval_ok(input, Value::from_i64(result))
}

#[test]
fn empty1() {
    eval_ok("", Value::v_none());
}

#[test]
fn empty2() {
    eval_ok(" \t\n", Value::v_none());
}

#[test]
fn integer() {
    eval_i64("1234", 1234);
}

#[test]
fn sub1() {
    eval_i64("1 - 2", -1);
}

#[test]
fn mul1() {
    eval_i64("1 + 2 * 2", 5);
}

#[test]
fn logical() {
    eval_ok("(True || False) && True", Value::v_true());
}

#[test]
fn conditional1() {
    eval_i64("if True then 1 else 2", 1);
}

#[test]
fn seq() {
    eval_i64("1 then 2", 2);
    eval_i64("1 then 2 then 3", 3);
}

#[test]
fn assignments() {
    eval_i64("let a = b + c\nlet b = c\nlet c = 3\na - 1", 5);
}

#[test]
fn block() {
    eval_i64("let x = 1\n{ let y = x + 1\n y + 2\n}", 4);
}

#[test]
fn division_truncates_toward_zero() {
    eval_i64("7 / 2", 3);
    eval_i64("(0 - 7) / 2", -3);
    eval_i64("7 / (0 - 2)", -3);
}

#[test]
fn division_by_zero_fails() {
    match eval_module("1 / (2 - 2)") {
        Ok(_) => panic!(),
        Err(e) => {
            assert_eq!(e.errors.len(), 1);
            assert_eq!(e.errors[0].it, Error::DivisionByZero);
        }
    }
}

#[test]
fn short_circuits() {
    // The right operand is not evaluated when the left one decides.
    eval_ok("False && { let z = 1 / 0\n True }", Value::v_false());
    eval_ok("True || { let z = 1 / 0\n True }", Value::v_true());
    eval_ok("True || False", Value::v_true());
    eval_ok("False || False", Value::v_false());
}

#[test]
fn large_integers() {
    let mut env = Env::new();
    let v = env.run("123456789012345678901234567890 * 1000000000000").unwrap();
    assert_eq!(v.to_text(), "123456789012345678901234567890000000000000");
    let v = env.run("0 - 123456789012345678901234567890").unwrap();
    assert_eq!(v.to_text(), "-123456789012345678901234567890");
}

#[test]
fn value_of_last_assignment() {
    eval_i64("let a = 2\nlet b = a * 3", 6);
}

#[test]
fn singleton_values() {
    let v = eval_module("type Red\nRed").unwrap();
    assert_eq!(v.to_text(), "Red");
    eval_ok("None", Value::v_none());
    eval_ok("{}", Value::v_none());
}

#[test]
fn circular_definitions_fail() {
    match eval_module("let a = b\nlet b = a") {
        Ok(_) => panic!(),
        Err(e) => {
            let a = arendal::symbol::Symbol::new(&arendal::error::Loc::none(), "a").unwrap();
            assert_eq!(e.errors[0].it, Error::CircularDefinition(a));
        }
    }
}

#[test]
fn environment_keeps_globals_between_runs() {
    let mut env = Env::new();
    assert_eq!(env.run("let x = 20").unwrap(), Value::from_i64(20));
    assert_eq!(env.run("x + 1").unwrap(), Value::from_i64(21));
    assert_eq!(env.value("x"), Some(Value::from_i64(20)));
    assert_eq!(env.value("y"), None);
    // A global is defined once.
    match env.run("let x = 3") {
        Ok(_) => panic!(),
        Err(e) => assert!(matches!(e.errors[0].it, Error::DuplicateSymbol(_))),
    }
    assert_eq!(env.value("x"), Some(Value::from_i64(20)));
}

#[test]
fn failed_checks_change_nothing() {
    let mut env = Env::new();
    assert!(env.run("let x = True + 1").is_err());
    assert_eq!(env.value("x"), None);
    assert_eq!(env.run("let x = 5\nx").unwrap(), Value::from_i64(5));
}

#[test]
fn evaluated_globals_stay_when_a_later_one_fails() {
    let mut env = Env::new();
    assert!(env.run("let a = 1\nlet b = 1 / 0").is_err());
    assert_eq!(env.value("a"), Some(Value::from_i64(1)));
    assert_eq!(env.value("b"), None);
    // `b` was checked, so using it type checks; it has no value to give.
    match env.run("b + 1") {
        Ok(_) => panic!(),
        Err(e) => assert!(matches!(e.errors[0].it, Error::UnknownSymbol(_))),
    }
}

#[test]
fn comparisons_fail_and_booleans_run() {
    let mut env = Env::new();
    let v = env.run("let t = 3 < 4 || True\nt").unwrap_err();
    assert_eq!(v.errors[0].it, Error::InvalidType);
    let v = env.run("let t = if 1 / 1 then False else True").unwrap_err();
    assert_eq!(v.errors[0].it, Error::TypeMismatch(arendal::types::Type::Boolean, arendal::types::Type::Integer));
    let v = env.run("let t = if False || True then 1 else 2\nt").unwrap();
    assert_eq!(v, Value::from_i64(1));
}

#[test]
fn arithmetic_runs() {
    eval_i64("1+2", 3);
    eval_i64("1 + 2 + 3", 6);
    eval_i64("(1 + 2) * 2", 6);
    eval_i64("(((1 + 2) * 2) + 1) * 2", 14);
}

#[test]
fn unbound_names_are_reported_by_kind() {
    let x = Symbol::new(&Loc::none(), "x").unwrap();
    let local = TExpr { loc: Loc::input(1), expr: TE::Local(x.clone(), Type::Integer) };
    let e = eval_expr(&vec![], &vec![], &local).unwrap_err();
    assert_eq!(e.errors[0].it, Error::UnknownLocalSymbol(x.clone()));
    let global = TExpr { loc: Loc::input(1), expr: TE::Global(x.clone(), Type::Integer) };
    let e = eval_expr(&vec![], &vec![], &global).unwrap_err();
    assert_eq!(e.errors[0].it, Error::UnknownSymbol(x));
}
