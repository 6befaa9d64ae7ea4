//! A tree-walking interpreter of typed expressions.
//!
//! `a then b` yields the value of `b`; `&&` and `||` do not evaluate their
//! right operand when the left one decides; division truncates toward zero and
//! fails on a zero divisor; a block yields the value of its last statement.
use vstd::prelude::*;

use crate::ast::BinaryOp;
use crate::checker::{
    Errs, TE, TEV, TExpr, TSV, TStmt, lemma_errs_view_add, lemma_tstmts_view, lookup, merge,
    tstmts_view,
};
use crate::error::{ErrV, Error, ErrorVec, Loc, errs_view};
use crate::integer::{Integer, trunc_div};
use crate::symbol::Symbol;
use crate::types::{Type, TypeV};
use crate::value::{Value, ValueV, bool_value, value_type};

verus! {

/// Names bound to values, latest binding last.
pub type VBindings = Seq<(Seq<char>, ValueV)>;

pub open spec fn as_int(loc: Loc, v: ValueV) -> Result<int, Errs> {
    match v {
        ValueV::Int(n) => Ok(n),
        _ => Err(seq![(loc, ErrV::TypeMismatch(TypeV::Integer, value_type(v)))]),
    }
}

pub open spec fn as_bool(loc: Loc, v: ValueV) -> Result<bool, Errs> {
    match v {
        ValueV::True => Ok(true),
        ValueV::False => Ok(false),
        _ => Err(seq![(loc, ErrV::TypeMismatch(TypeV::Boolean, value_type(v)))]),
    }
}

/// An operation on two integers.
pub open spec fn arith(loc: Loc, op: BinaryOp, x: int, y: int) -> Result<ValueV, Errs> {
    match op {
        BinaryOp::Add => Ok(ValueV::Int(x + y)),
        BinaryOp::Sub => Ok(ValueV::Int(x - y)),
        BinaryOp::Mul => Ok(ValueV::Int(x * y)),
        _ => if y == 0 {
            Err(seq![(loc, ErrV::Other(Error::DivisionByZero))])
        } else {
            Ok(ValueV::Int(trunc_div(x, y)))
        },
    }
}

/// The value of a typed expression, given the values of the globals `g` and
/// of the locals `l`.
pub open spec fn eval(g: VBindings, l: VBindings, t: TEV) -> Result<ValueV, Errs>
    decreases t,
{
    match t {
        TEV::Val(_, v) => Ok(v),
        TEV::Local(loc, s, _) => match lookup(l, s) {
            Some(v) => Ok(v),
            None => Err(seq![(loc, ErrV::UnknownLocalSymbol(s))]),
        },
        TEV::Global(loc, s, _) => match lookup(g, s) {
            Some(v) => Ok(v),
            None => Err(seq![(loc, ErrV::UnknownSymbol(s))]),
        },
        TEV::Then(_, _, b) => eval(g, l, *b),
        TEV::Cond(loc, c, a, b) => match eval(g, l, *c) {
            Err(e) => Err(e),
            Ok(vc) => match as_bool(loc, vc) {
                Err(e) => Err(e),
                Ok(bc) => if bc {
                    eval(g, l, *a)
                } else {
                    eval(g, l, *b)
                },
            },
        },
        TEV::Arith(loc, op, a, b) => match eval(g, l, *a) {
            Err(e) => Err(e),
            Ok(va) => match eval(g, l, *b) {
                Err(e) => Err(e),
                Ok(vb) => match merge(as_int(loc, va), as_int(loc, vb)) {
                    Err(e) => Err(e),
                    Ok((x, y)) => arith(loc, op, x, y),
                },
            },
        },
        TEV::Logic(loc, op, a, b) => match eval(g, l, *a) {
            Err(e) => Err(e),
            Ok(va) => match as_bool(loc, va) {
                Err(e) => Err(e),
                Ok(ba) => if ba == (op == BinaryOp::Or) {
                    Ok(bool_value(ba))
                } else {
                    match eval(g, l, *b) {
                        Err(e) => Err(e),
                        Ok(vb) => match as_bool(loc, vb) {
                            Err(e) => Err(e),
                            Ok(bb) => Ok(bool_value(bb)),
                        },
                    }
                },
            },
        },
        TEV::Block(_, ss) => eval_stmts(g, l, ss, ValueV::Unit),
    }
}

/// The value of the last of the statements, each assignment binding a new
/// local for the statements after it; `last` when there is none.
pub open spec fn eval_stmts(g: VBindings, l: VBindings, ss: Seq<TSV>, last: ValueV) -> Result<
    ValueV,
    Errs,
>
    decreases ss,
{
    if ss.len() == 0 {
        Ok(last)
    } else {
        match ss[0] {
            TSV::Assign(loc, s, t) => match eval(g, l, t) {
                Err(e) => Err(e),
                Ok(v) => if lookup(l, s) is Some {
                    Err(seq![(loc, ErrV::DuplicateLocalSymbol(s))])
                } else {
                    eval_stmts(g, l.push((s, v)), ss.drop_first(), v)
                },
            },
            TSV::Expr(t) => match eval(g, l, t) {
                Err(e) => Err(e),
                Ok(v) => eval_stmts(g, l, ss.drop_first(), v),
            },
        }
    }
}

/// A name bound to a value.
#[derive(Debug)]
pub struct VBinding {
    pub symbol: Symbol,
    pub value: Value,
}

pub open spec fn vbindings_view(b: Seq<VBinding>) -> VBindings {
    b.map_values(|x: VBinding| (x.symbol@, x.value@))
}

pub open spec fn vres_view(r: Result<Value, ErrorVec>) -> Result<ValueV, Errs> {
    match r {
        Ok(v) => Ok(v@),
        Err(e) => Err(errs_view(e@)),
    }
}

/// The latest value bound to `s`.
pub fn find_value(l: &Vec<VBinding>, s: &Symbol) -> (r: Option<usize>)
    ensures
        match lookup(vbindings_view(l@), s@) {
            Some(v) => r matches Some(i) && i < l@.len() && l@[i as int].value@ == v,
            None => r is None,
        },
{
    let ghost v = vbindings_view(l@);
    let mut i: usize = l.len();
    assert(v.subrange(0, i as int) =~= v);
    while i > 0
        invariant
            i <= l@.len(),
            v == vbindings_view(l@),
            lookup(v, s@) == lookup(v.subrange(0, i as int), s@),
        decreases i,
    {
        proof {
            crate::checker::lemma_lookup_prefix(v, s@, i - 1);
        }
        if l[i - 1].symbol.same(s) {
            return Some(i - 1);
        }
        i = i - 1;
    }
    None
}

/// A copy of a list of bindings.
pub fn copy_values(l: &Vec<VBinding>) -> (r: Vec<VBinding>)
    ensures
        vbindings_view(r@) == vbindings_view(l@),
{
    let mut r: Vec<VBinding> = Vec::new();
    let mut i: usize = 0;
    while i < l.len()
        invariant
            i <= l@.len(),
            vbindings_view(r@) == vbindings_view(l@).subrange(0, i as int),
        decreases l@.len() - i,
    {
        let b = VBinding { symbol: l[i].symbol.duplicate(), value: l[i].value.duplicate() };
        let ghost before = r@;
        r.push(b);
        assert(r@ == before.push(b));
        assert(vbindings_view(r@) =~= vbindings_view(before).push((b.symbol@, b.value@)));
        assert(vbindings_view(l@).subrange(0, i + 1) =~= vbindings_view(l@).subrange(
            0,
            i as int,
        ).push(vbindings_view(l@)[i as int]));
        i = i + 1;
    }
    assert(vbindings_view(l@).subrange(0, i as int) =~= vbindings_view(l@));
    r
}

fn arith_exec(loc: Loc, op: BinaryOp, x: Integer, y: Integer) -> (r: Result<Value, ErrorVec>)
    ensures
        vres_view(r) == arith(loc, op, x@, y@),
{
    match op {
        BinaryOp::Add => Ok(Value::Integer(x.add(&y))),
        BinaryOp::Sub => Ok(Value::Integer(x.sub(&y))),
        BinaryOp::Mul => Ok(Value::Integer(x.mul(&y))),
        _ => if y.is_zero() {
            let r = loc.err(Error::DivisionByZero);
            assert(errs_view(r->Err_0@) =~= seq![(loc, ErrV::Other(Error::DivisionByZero))]);
            r
        } else {
            Ok(Value::Integer(x.div(&y)))
        },
    }
}

/// Evaluates a typed expression.
pub fn eval_expr(globals: &Vec<VBinding>, locals: &Vec<VBinding>, t: &TExpr) -> (r: Result<
    Value,
    ErrorVec,
>)
    ensures
        vres_view(r) == eval(vbindings_view(globals@), vbindings_view(locals@), t@),
    decreases t,
{
    let loc = t.loc;
    match &t.expr {
        TE::Val(v) => Ok(v.duplicate()),
        TE::Local(s, _) => match find_value(locals, s) {
            Some(i) => Ok(locals[i].value.duplicate()),
            None => {
                let r = loc.err(Error::UnknownLocalSymbol(s.duplicate()));
                assert(errs_view(r->Err_0@) =~= seq![(loc, ErrV::UnknownLocalSymbol(s@))]);
                r
            },
        },
        TE::Global(s, _) => match find_value(globals, s) {
            Some(i) => Ok(globals[i].value.duplicate()),
            None => {
                let r = loc.err(Error::UnknownSymbol(s.duplicate()));
                assert(errs_view(r->Err_0@) =~= seq![(loc, ErrV::UnknownSymbol(s@))]);
                r
            },
        },
        TE::Then(_, b) => eval_expr(globals, locals, b),
        TE::Cond(c, a, b) => {
            let vc = match eval_expr(globals, locals, c) {
                Err(e) => {
                    return Err(e);
                },
                Ok(v) => v,
            };
            let bc = match vc.as_boolean(&loc) {
                Err(e) => {
                    return Err(e);
                },
                Ok(b) => b,
            };
            if bc {
                eval_expr(globals, locals, a)
            } else {
                eval_expr(globals, locals, b)
            }
        },
        TE::Arith(op, a, b) => {
            let va = match eval_expr(globals, locals, a) {
                Err(e) => {
                    return Err(e);
                },
                Ok(v) => v,
            };
            let vb = match eval_expr(globals, locals, b) {
                Err(e) => {
                    return Err(e);
                },
                Ok(v) => v,
            };
            let ghost (av, bv) = (va@, vb@);
            let xa = va.as_integer(&loc);
            let xb = vb.as_integer(&loc);
            match (xa, xb) {
                (Err(mut e1), Err(e2)) => {
                    let ghost (e1v, e2v) = (e1@, e2@);
                    e1.append(e2);
                    proof {
                        lemma_errs_view_add(e1v, e2v);
                    }
                    Err(e1)
                },
                (Err(e1), Ok(_)) => Err(e1),
                (Ok(_), Err(e2)) => Err(e2),
                (Ok(x), Ok(y)) => arith_exec(loc, *op, x, y),
            }
        },
        TE::Logic(op, a, b) => {
            let va = match eval_expr(globals, locals, a) {
                Err(e) => {
                    return Err(e);
                },
                Ok(v) => v,
            };
            let ba = match va.as_boolean(&loc) {
                Err(e) => {
                    return Err(e);
                },
                Ok(b) => b,
            };
            let is_or = matches!(op, BinaryOp::Or);
            if ba == is_or {
                Ok(Value::v_bool(ba))
            } else {
                let vb = match eval_expr(globals, locals, b) {
                    Err(e) => {
                        return Err(e);
                    },
                    Ok(v) => v,
                };
                match vb.as_boolean(&loc) {
                    Err(e) => Err(e),
                    Ok(bb) => Ok(Value::v_bool(bb)),
                }
            }
        },
        TE::Block(v) => eval_block(globals, locals, v),
    }
}

/// The outcome of evaluating statements after earlier ones were.
pub open spec fn eval_step(g: VBindings, l: VBindings, s: TSV) -> Result<(ValueV, VBindings), Errs> {
    match s {
        TSV::Assign(loc, name, t) => match eval(g, l, t) {
            Err(e) => Err(e),
            Ok(v) => if lookup(l, name) is Some {
                Err(seq![(loc, ErrV::DuplicateLocalSymbol(name))])
            } else {
                Ok((v, l.push((name, v))))
            },
        },
        TSV::Expr(t) => match eval(g, l, t) {
            Err(e) => Err(e),
            Ok(v) => Ok((v, l)),
        },
    }
}

proof fn lemma_eval_stmts_unfold(g: VBindings, l: VBindings, ss: Seq<TSV>, last: ValueV)
    requires
        ss.len() > 0,
    ensures
        eval_stmts(g, l, ss, last) == match eval_step(g, l, ss[0]) {
            Err(e) => Err(e),
            Ok((v, l2)) => eval_stmts(g, l2, ss.drop_first(), v),
        },
{
}

/// Evaluates one statement of a block in `locals`, which an assignment extends.
fn eval_statement(globals: &Vec<VBinding>, locals: &mut Vec<VBinding>, s: &TStmt) -> (r: Result<
    Value,
    ErrorVec,
>)
    ensures
        match eval_step(vbindings_view(globals@), vbindings_view(old(locals)@), crate::checker::tstmt_view(*s)) {
            Err(es) => r matches Err(x) && errs_view(x@) == es,
            Ok((v, l2)) => r matches Ok(x) && x@ == v && vbindings_view(final(locals)@) == l2,
        },
    decreases s,
{
    match s {
        TStmt::Assign(loc, name, t) => {
            match eval_expr(globals, locals, t) {
                Err(e) => Err(e),
                Ok(v) => {
                    if find_value(locals, name).is_some() {
                        let r = loc.err(Error::DuplicateLocalSymbol(name.duplicate()));
                        assert(errs_view(r->Err_0@) =~= seq![(*loc, ErrV::DuplicateLocalSymbol(name@))]);
                        return r;
                    }
                    let ghost before = vbindings_view(locals@);
                    locals.push(VBinding { symbol: name.duplicate(), value: v.duplicate() });
                    assert(vbindings_view(locals@) =~= before.push((name@, v@)));
                    Ok(v)
                },
            }
        },
        TStmt::Expr(t) => eval_expr(globals, locals, t),
    }
}

/// Evaluates the statements of a block in a scope of its own.
#[verifier::spinoff_prover]
#[verifier::rlimit(30)]
fn eval_block(globals: &Vec<VBinding>, locals: &Vec<VBinding>, v: &Vec<TStmt>) -> (r: Result<
    Value,
    ErrorVec,
>)
    ensures
        vres_view(r) == eval_stmts(vbindings_view(globals@), vbindings_view(locals@), tstmts_view(v@), ValueV::Unit),
    decreases v,
{
    let ghost g = vbindings_view(globals@);
    let ghost ss = tstmts_view(v@);
    proof {
        lemma_tstmts_view(v@);
        assert(ss.subrange(0, ss.len() as int) =~= ss);
    }
    let mut inner = copy_values(locals);
    let mut last = Value::Unit;
    let mut i: usize = 0;
    while i < v.len()
        invariant
            i <= v@.len(),
            g == vbindings_view(globals@),
            ss == tstmts_view(v@),
            ss.len() == v@.len(),
            forall|j: int| 0 <= j < v@.len() ==> #[trigger] ss[j] == crate::checker::tstmt_view(v@[j]),
            eval_stmts(g, vbindings_view(locals@), ss, ValueV::Unit) == eval_stmts(
                g,
                vbindings_view(inner@),
                ss.subrange(i as int, ss.len() as int),
                last@,
            ),
        decreases v@.len() - i,
    {
        let ghost rest = ss.subrange(i as int, ss.len() as int);
        let ghost li = vbindings_view(inner@);
        let ghost lastv = last@;
        proof {
            assert(rest[0] == ss[i as int]);
            assert(rest.drop_first() =~= ss.subrange(i + 1, ss.len() as int));
            lemma_eval_stmts_unfold(g, li, rest, lastv);
        }
        match eval_statement(globals, &mut inner, &v[i]) {
            Err(e) => {
                return Err(e);
            },
            Ok(x) => {
                last = x;
            },
        }
        i = i + 1;
    }
    Ok(last)
}


/// A conditional takes the branch its condition picks: the `then` branch when
/// the condition is `True`, the `else` branch when it is `False`; the branch
/// not taken plays no part.
pub proof fn law_conditional_picks_branch(g: VBindings, l: VBindings, loc: Loc, c: TEV, a: TEV, b: TEV, other: TEV)
    ensures
        eval(g, l, c) == Ok::<ValueV, Errs>(ValueV::True) ==> eval(
            g,
            l,
            TEV::Cond(loc, Box::new(c), Box::new(a), Box::new(b)),
        ) == eval(g, l, a) && eval(g, l, TEV::Cond(loc, Box::new(c), Box::new(a), Box::new(other)))
            == eval(g, l, a),
        eval(g, l, c) == Ok::<ValueV, Errs>(ValueV::False) ==> eval(
            g,
            l,
            TEV::Cond(loc, Box::new(c), Box::new(a), Box::new(b)),
        ) == eval(g, l, b) && eval(g, l, TEV::Cond(loc, Box::new(c), Box::new(other), Box::new(b)))
            == eval(g, l, b),
{
}

/// `first then second` has the value of `second`.
pub proof fn law_then_gives_second(g: VBindings, l: VBindings, loc: Loc, a: TEV, b: TEV)
    ensures
        eval(g, l, TEV::Then(loc, Box::new(a), Box::new(b))) == eval(g, l, b),
{
}

/// Integer operations compute the sum, difference and product of the operands'
/// values, and a quotient rounded toward zero: the remainder is smaller than the
/// divisor and has the sign of the dividend. Dividing by zero fails.
pub proof fn law_arithmetic(g: VBindings, l: VBindings, loc: Loc, a: TEV, b: TEV, x: int, y: int)
    requires
        eval(g, l, a) == Ok::<ValueV, Errs>(ValueV::Int(x)),
        eval(g, l, b) == Ok::<ValueV, Errs>(ValueV::Int(y)),
    ensures
        eval(g, l, TEV::Arith(loc, BinaryOp::Add, Box::new(a), Box::new(b))) == Ok::<ValueV, Errs>(ValueV::Int(x + y)),
        eval(g, l, TEV::Arith(loc, BinaryOp::Sub, Box::new(a), Box::new(b))) == Ok::<ValueV, Errs>(ValueV::Int(x - y)),
        eval(g, l, TEV::Arith(loc, BinaryOp::Mul, Box::new(a), Box::new(b))) == Ok::<ValueV, Errs>(ValueV::Int(x * y)),
        y == 0 ==> eval(g, l, TEV::Arith(loc, BinaryOp::Div, Box::new(a), Box::new(b))) == Err::<ValueV, Errs>(
            seq![(loc, ErrV::Other(Error::DivisionByZero))],
        ),
        y != 0 ==> (eval(g, l, TEV::Arith(loc, BinaryOp::Div, Box::new(a), Box::new(b))) matches Ok(
            ValueV::Int(q),
        ) && ({
            let r = x - q * y;
            &&& (if r < 0 { -r } else { r }) < (if y < 0 { -y } else { y })
            &&& r == 0 || (r > 0) == (x > 0)
        })),
{
    if y != 0 {
        let q = trunc_div(x, y);
        let ax = if x < 0 { -x } else { x };
        let ay = if y < 0 { -y } else { y };
        let aq = ax / ay;
        vstd::arithmetic::div_mod::lemma_fundamental_div_mod(ax, ay);
        vstd::arithmetic::div_mod::lemma_mod_bound(ax, ay);
        assert(aq * ay == ay * aq) by (nonlinear_arith);
        assert(ax == aq * ay + ax % ay && 0 <= ax % ay < ay);
        assert(aq >= 0) by (nonlinear_arith)
            requires ay > 0, ax >= 0, aq == ax / ay;
        if x >= 0 && y > 0 {
            assert(q == aq);
            assert(x - q * y == ax % ay);
        } else if x >= 0 && y < 0 {
            assert(q == -aq || aq == 0);
            assert(q * y == aq * ay) by (nonlinear_arith)
                requires q == -aq || (aq == 0 && q == aq), y == -ay;
            assert(x - q * y == ax % ay);
        } else if x < 0 && y > 0 {
            assert(q == -aq || aq == 0);
            assert(q * y == -(aq * ay)) by (nonlinear_arith)
                requires q == -aq || (aq == 0 && q == aq), y == ay;
            assert(x - q * y == -(ax % ay));
        } else {
            assert(q == aq);
            assert(q * y == -(aq * ay)) by (nonlinear_arith)
                requires q == aq, y == -ay;
            assert(x - q * y == -(ax % ay));
        }
    }
}

/// `&&` and `||` look at their second operand only when the first does not
/// settle the result: `False && b` is `False` and `True || b` is `True`
/// whatever `b` is, and otherwise the result is the second operand's boolean.
pub proof fn law_logic_short_circuits(g: VBindings, l: VBindings, loc: Loc, a: TEV, b: TEV, other: TEV)
    ensures
        eval(g, l, a) == Ok::<ValueV, Errs>(ValueV::False) ==> eval(
            g,
            l,
            TEV::Logic(loc, BinaryOp::And, Box::new(a), Box::new(other)),
        ) == Ok::<ValueV, Errs>(ValueV::False),
        eval(g, l, a) == Ok::<ValueV, Errs>(ValueV::True) ==> eval(
            g,
            l,
            TEV::Logic(loc, BinaryOp::Or, Box::new(a), Box::new(other)),
        ) == Ok::<ValueV, Errs>(ValueV::True),
        eval(g, l, a) == Ok::<ValueV, Errs>(ValueV::True) && (eval(g, l, b) == Ok::<ValueV, Errs>(ValueV::True)
            || eval(g, l, b) == Ok::<ValueV, Errs>(ValueV::False)) ==> eval(
            g,
            l,
            TEV::Logic(loc, BinaryOp::And, Box::new(a), Box::new(b)),
        ) == eval(g, l, b),
        eval(g, l, a) == Ok::<ValueV, Errs>(ValueV::False) && (eval(g, l, b) == Ok::<ValueV, Errs>(ValueV::True)
            || eval(g, l, b) == Ok::<ValueV, Errs>(ValueV::False)) ==> eval(
            g,
            l,
            TEV::Logic(loc, BinaryOp::Or, Box::new(a), Box::new(b)),
        ) == eval(g, l, b),
{
}


/// In a block, a `let` binds its name to the value of its expression for the
/// statements after it, and the block has the value of its last statement.
pub proof fn law_block_binds_and_gives_last(g: VBindings, l: VBindings, loc: Loc, x: Seq<char>, e: TEV, ty: TypeV, v: ValueV, rest: TEV)
    requires
        eval(g, l, e) == Ok::<ValueV, Errs>(v),
        lookup(l, x) is None,
    ensures
        eval(g, l, TEV::Block(loc, seq![TSV::Assign(loc, x, e), TSV::Expr(TEV::Local(loc, x, ty))]))
            == Ok::<ValueV, Errs>(v),
        eval(g, l, TEV::Block(loc, seq![TSV::Assign(loc, x, e)])) == Ok::<ValueV, Errs>(v),
        eval(g, l, TEV::Block(loc, seq![TSV::Expr(e), TSV::Expr(rest)])) == eval(g, l, rest),
{
    let s1 = seq![TSV::Assign(loc, x, e), TSV::Expr(TEV::Local(loc, x, ty))];
    let l2 = l.push((x, v));
    assert(s1.drop_first() =~= seq![TSV::Expr(TEV::Local(loc, x, ty))]);
    assert(s1.drop_first().drop_first() =~= Seq::<TSV>::empty());
    assert(lookup(l2, x) == Some(v)) by {
        assert(l2.last() == (x, v));
    }
    assert(eval(g, l2, TEV::Local(loc, x, ty)) == Ok::<ValueV, Errs>(v));
    assert(eval_stmts(g, l2, s1.drop_first().drop_first(), v) == Ok::<ValueV, Errs>(v));
    assert(eval_stmts(g, l2, s1.drop_first(), v) == Ok::<ValueV, Errs>(v));
    assert(eval_stmts(g, l, s1, Ok::<ValueV, Errs>(v)->Ok_0) == Ok::<ValueV, Errs>(v));
    assert(eval_stmts(g, l, s1, ValueV::Unit) == Ok::<ValueV, Errs>(v));
    let s2 = seq![TSV::Assign(loc, x, e)];
    assert(s2.drop_first() =~= Seq::<TSV>::empty());
    assert(eval_stmts(g, l2, s2.drop_first(), v) == Ok::<ValueV, Errs>(v));
    assert(eval_stmts(g, l, s2, ValueV::Unit) == Ok::<ValueV, Errs>(v));
    let s3 = seq![TSV::Expr(e), TSV::Expr(rest)];
    assert(s3.drop_first() =~= seq![TSV::Expr(rest)]);
    assert(s3.drop_first().drop_first() =~= Seq::<TSV>::empty());
    match eval(g, l, rest) {
        Ok(w) => {
            assert(eval_stmts(g, l, s3.drop_first().drop_first(), w) == Ok::<ValueV, Errs>(w));
        },
        Err(_) => {},
    }
    assert(eval_stmts(g, l, s3.drop_first(), v) == eval(g, l, rest));
    assert(eval_stmts(g, l, s3, ValueV::Unit) == eval(g, l, rest));
}

} // verus!
