use arendal::arena::{Binary, Block, Builder, Expr, NodeData};
use arendal::ast::BinaryOp;
use arendal::id::{Id, RawId};
use arendal::input::{Input, Origin, Position, StrRange, StringInput};
use arendal::integer::Integer;
use arendal::problem::{self, merge, ok, Error, NoPosition, Output, Problem, Problems, Warning, Warnings};
use arendal::symbol::{FQPath, Lib, ModulePath, Path, Pkg, Symbol, Visibility};

fn sym(s: &str) -> Symbol {
    Symbol::new(&arendal::error::Loc::none(), s).unwrap()
}

#[test]
fn ranges_track_lines_and_columns() {
    let mut r = StrRange::new(StringInput::from_str("ab\ncé"));
    for c in "ab\ncé".chars() {
        r.advance(c);
    }
    assert_eq!(r.to().bytes(), 6);
    assert_eq!(r.to().line().line_number(), 2);
    assert_eq!(r.to().line().bytes(), 3);
    assert_eq!(r.to().column(), 3);
    assert_eq!(r.from().bytes(), 0);
    assert_eq!(r.substr(), "ab\ncé");
    r.catch_up();
    assert_eq!(r.from().bytes(), 6);
    assert_eq!(r.substr(), "");
}

#[test]
fn substrings_follow_the_range() {
    let input = StringInput::from_str("let x = 1");
    let mut r = StrRange::new(input.clone());
    for c in "let ".chars() {
        r.advance(c);
    }
    r.catch_up();
    r.advance('x');
    assert_eq!(r.substr(), "x");
    assert_eq!(input.as_char_vec().len(), 9);
}

#[test]
fn merged_ranges_cover_both() {
    let input = StringInput::from_str("abcdef");
    let mut a = StrRange::new(input.clone());
    a.advance('a');
    a.advance('b');
    let mut b = StrRange::new(input.clone());
    for c in "abcd".chars() {
        b.advance(c);
    }
    b.catch_up();
    b.advance('e');
    let m = a.merge(&b).unwrap();
    assert_eq!((m.from().bytes(), m.to().bytes()), (0, 5));
    let m2 = b.merge(&a).unwrap();
    assert_eq!((m2.from().bytes(), m2.to().bytes()), (0, 5));
    assert_eq!(m.substr(), "abcde");
    let other = StrRange::new(StringInput::from_str("xyz"));
    assert!(a.merge(&other).is_err());
    let p = Position::String(a.clone()).merge(&Position::String(b.clone()));
    assert!(matches!(p, Position::String(_)));
    assert_eq!(Position::NoPosition.merge(&Position::String(b)), Position::NoPosition);
}

fn err(code: &str) -> Error {
    Error::new(Position::NoPosition, code.to_owned(), "message".to_owned())
}

fn warn(code: &str) -> Warning {
    Warning::new(Position::NoPosition, code.to_owned(), "message".to_owned())
}

fn codes_e(v: &[Error]) -> Vec<String> {
    v.iter().map(|e| e.code.clone()).collect()
}

fn codes_w(v: &[Warning]) -> Vec<String> {
    v.iter().map(|e| e.code.clone()).collect()
}

#[test]
fn merge_keeps_every_problem_in_order() {
    let one: problem::Result<i32> = warn("W1").to_ok(1);
    let two: problem::Result<i32> = warn("W2").to_ok(2);
    let w = merge(one, two).unwrap();
    assert_eq!(w.value, (1, 2));
    assert_eq!(codes_w(&w.warnings), vec!["W1", "W2"]);

    let one: problem::Result<i32> = err("E1").to_err();
    let mut p = Problems::from_error(err("E2"));
    p.warnings.push(warn("W3"));
    let two: problem::Result<i32> = p.to_result(5);
    match merge(one, two) {
        Ok(_) => panic!(),
        Err(p) => {
            assert_eq!(codes_e(&p.errors), vec!["E1", "E2"]);
            assert_eq!(codes_w(&p.warnings), vec!["W3"]);
        }
    }
    let one: problem::Result<i32> = warn("W1").to_ok(1);
    let two: problem::Result<i32> = err("E2").to_err();
    match merge(one, two) {
        Ok(_) => panic!(),
        Err(p) => {
            assert_eq!(codes_e(&p.errors), vec!["E2"]);
            assert_eq!(codes_w(&p.warnings), vec!["W1"]);
        }
    }
}

#[test]
fn warnings_go_along() {
    let w = Warnings { warnings: vec![warn("W1")], value: 2 };
    let r = w.and_then(|v| warn("W2").to_ok(v * 10)).unwrap();
    assert_eq!(r.value, 20);
    assert_eq!(codes_w(&r.warnings), vec!["W1", "W2"]);
    let r: problem::Result<i32> = ok(3).unwrap().and_then(|_| err("E").to_err());
    assert!(r.is_err());
    let w = Warnings { warnings: vec![warn("W1")], value: Some(4) };
    let r = w.and_then_map(|v| ok(v + 1)).unwrap();
    assert_eq!(r.value, Some(5));
    assert_eq!(r.warnings.len(), 1);
    let mut p = Problems::from_error(err("E"));
    assert_eq!(p.add_result(ok(7)), Some(7));
    let lazy: problem::Result<i32> = Problems { errors: vec![], warnings: vec![] }.to_lazy_result(|| 9);
    assert_eq!(lazy.unwrap().value, 9);
    assert!(p.to_unit_result().is_err());
}

#[test]
fn outputs_collect() {
    let mut out: Output<Vec<i32>> = Output::empty();
    out.add_value(1);
    let mut other = Output::ok(2);
    other.add_warning(warn("W"));
    out.add_output(other);
    let mut failed: Output<i32> = Output::new();
    failed.add_error(err("E"));
    out.add_output(failed);
    match out.to_result() {
        Ok(_) => panic!(),
        Err(p) => {
            assert_eq!(codes_e(&p.errors), vec!["E"]);
            assert_eq!(codes_w(&p.warnings), vec!["W"]);
        }
    }
    let a = Output::ok(2).map(|x| x + 1);
    let b = Output::ok(10);
    let r = a.merge(b, |x, y| x * y).to_result().unwrap();
    assert_eq!(r.value, 30);
    let r = Output::ok(1).and_then(|x| Output::ok(x + 1)).merge_to_tuple(Output::ok(5)).to_result().unwrap();
    assert_eq!(r.value, (2, 5));
    let mut o = Output::ok(1);
    assert_eq!(o.replace(3), Some(1));
    assert_eq!(o.merge_problems(Output::<i32>::from_error(err("X"))), None);
    assert!(o.to_result().is_err());
}

fn lit(b: &mut Builder, n: i64) -> arendal::arena::NodeRef {
    b.add(&Position::NoPosition, NodeData::Expression(Expr::LitInteger(Integer::from_i64(n)))).unwrap().value
}

#[test]
fn arena_nodes_have_one_parent() {
    let mut b = Builder::new();
    let one = lit(&mut b, 1);
    let two = lit(&mut b, 2);
    let sum = b
        .add(&Position::NoPosition, NodeData::Expression(Expr::Binary(Binary { op: BinaryOp::Add, expr1: one, expr2: two })))
        .unwrap()
        .value;
    assert_eq!(sum.index, 2);
    // `one` already belongs to the sum.
    match b.add(&Position::NoPosition, NodeData::Expression(Expr::Block(Block { exprs: vec![one] }))) {
        Ok(_) => panic!(),
        Err(p) => {
            assert_eq!(p.errors[0].code, "E0002");
            assert_eq!(p.errors[0].message, "ChildHasParent");
        }
    }
    let missing = arendal::vectree::NodeId { tree_id: sum.tree_id, index: 10 };
    match b.add(&Position::NoPosition, NodeData::Expression(Expr::Block(Block { exprs: vec![missing] }))) {
        Ok(_) => panic!(),
        Err(p) => assert_eq!(p.errors[0].code, "E0001"),
    }
    let three = lit(&mut b, 3);
    let ast = b.build();
    assert_eq!(ast.tree.top_level_iter(), vec![sum, three]);
    assert!(ast.tree.get(&one).is_some());
    let beyond = arendal::vectree::NodeId { tree_id: sum.tree_id, index: 9 };
    assert!(ast.tree.get(&beyond).is_none());
}

#[test]
fn paths_and_visibility() {
    let here = Pkg::Local.path(Path::new(vec![sym("a"), sym("b")]));
    let there = Pkg::Local.path(Path::single(sym("c")));
    let std = Pkg::Std.empty();
    assert!(here.can_see(Visibility::Exported, &std));
    assert!(here.can_see(Visibility::Package, &there));
    assert!(!here.can_see(Visibility::Module, &there));
    assert!(here.can_see(Visibility::Module, &here.duplicate()));
    assert!(!here.can_see(Visibility::Package, &std));
    assert_eq!(here.to_text(), "pkga::b");
    assert_eq!(std.to_text(), "std");
    assert!(std.is_empty());
    let fq = here.fq_sym(sym("x"));
    assert!(fq.is_top_level());
    assert!(fq.can_see(Visibility::Module, &here.fq_sym(sym("y"))));
    let ext = Pkg::External(Id { id: RawId::from_u64(1) });
    assert!(ext.to_text().starts_with("pkg(01"));
    assert!(ext.same(&Pkg::External(Id { id: RawId::from_u64(1) })));
    assert!(!ext.same(&Pkg::External(Id { id: RawId::from_u64(2) })));
    assert!(Path::empty().is_empty());
}

#[test]
fn input_from_string() {
    let i = Input::from_string("1 + 2".to_owned());
    assert_eq!(i.input, "1 + 2");
    assert_eq!(i.origin, Origin::String);
}

#[test]
fn problems_tell_code_and_message() {
    let e = Error::new(Position::NoPosition, "E1".to_owned(), "bad".to_owned());
    assert_eq!(e.code(), "E1");
    assert_eq!(e.message(), "bad");
    assert_eq!(e.position(), Position::NoPosition);
    let w = Warning::new(Position::NoPosition, "W1".to_owned(), "odd".to_owned());
    assert_eq!(w.code(), "W1");
    assert_eq!(w.message(), "odd");
    assert_eq!(NoPosition::get(), NoPosition {});
}

#[test]
fn lib_paths() {
    let p = Lib::Std.path(ModulePath::single(sym("a")));
    assert!(!p.is_empty());
    assert!(Lib::Local.empty().is_empty());
}

#[test]
fn result_builder_keeps_warnings() {
    let mut b = Output::<u8>::builder();
    b.add_warning(Position::NoPosition, "W1".to_owned(), "m".to_owned());
    let r = b.to_result(7);
    let w = r.unwrap();
    assert_eq!(w.value, 7);
    assert_eq!(codes_w(&w.warnings), vec!["W1"]);
    let mut b = Output::<u8>::builder();
    b.add_warning(Position::NoPosition, "W1".to_owned(), "m".to_owned());
    b.add_error(Position::NoPosition, "E1".to_owned(), "m".to_owned());
    b.add_error(Position::NoPosition, "E2".to_owned(), "m".to_owned());
    match b.to_lazy_result(|| 1u8) {
        Err(p) => {
            assert_eq!(codes_e(&p.errors), vec!["E1", "E2"]);
            assert_eq!(codes_w(&p.warnings), vec!["W1"]);
        }
        Ok(_) => panic!("errors were ignored"),
    }
    assert!(Output::<u8>::builder().to_unit_result().is_ok());
    assert_eq!(Output::<u8>::builder().to_lazy_result(|| 9u8).unwrap().value, 9);
}

#[test]
fn std_root_path() {
    let p = FQPath::std_empty();
    assert!(p.is_empty());
    assert_eq!(p.pkg, Pkg::Std);
}

#[test]
fn add_output_without_a_value() {
    let mut list: Output<Vec<u8>> = Output::new();
    let mut extra: Output<u8> = Output::new();
    extra.add_warning(warn("W1"));
    list.add_output(extra);
    let r = list.to_result();
    let w = r.unwrap_err();
    assert!(w.errors.is_empty());
    assert_eq!(codes_w(&w.warnings), vec!["W1"]);
}

#[test]
fn paths_are_their_symbols() {
    assert!(Path::new(vec![]).same(&Path::empty()));
    assert!(Path::new(vec![sym("a")]).same(&Path::single(sym("a"))));
    assert!(Path::new(vec![]).is_empty());
    assert!(!Path::new(vec![sym("a")]).is_empty());
    assert!(Path::new(vec![sym("a"), sym("b")]).same(&Path::new(vec![sym("a"), sym("b")])));
    assert!(!Path::new(vec![sym("a"), sym("b")]).same(&Path::new(vec![sym("b"), sym("a")])));
    assert!(!Path::new(vec![sym("a")]).same(&Path::new(vec![sym("a"), sym("b")])));
}
