//! Type checking: from a syntax tree to a typed tree, or the errors found.
//!
//! Integers add, subtract, multiply and divide; `&&` and `||` take booleans
//! (values of `True`, `False` or `Boolean`); a condition is a boolean and both
//! branches have the same type; `a then b` has the type of `b`; a block has the
//! type of its last statement. A type symbol used as a value stands for the
//! only value of its type. Errors of sibling sub-expressions are all reported.
use vstd::prelude::*;

use crate::ast::{BStmt, BinaryOp, EV, Expr, Expression, SV, lemma_stmts_view, stmt_view, stmts_view};
use crate::error::{ErrV, Error, ErrorVec, Errors, Loc, errors_wf, errs_view};
use crate::symbol::{Symbol, TSymbol, known_of};
use crate::types::{Type, TypeV, is_boolean, known_type};
use crate::value::{Value, ValueV, singleton_of, value_type};

verus! {

/// Errors with their locations, by their views.
pub type Errs = Seq<(Loc, ErrV)>;

/// What a name is bound to in a list of bindings: its latest binding.
pub open spec fn lookup<T>(l: Seq<(Seq<char>, T)>, s: Seq<char>) -> Option<T>
    decreases l.len(),
{
    if l.len() == 0 {
        None
    } else if l.last().0 == s {
        Some(l.last().1)
    } else {
        lookup(l.drop_last(), s)
    }
}

/// The view of a typed expression.
pub ghost enum TEV {
    Val(Loc, ValueV),
    Local(Loc, Seq<char>, TypeV),
    Global(Loc, Seq<char>, TypeV),
    Then(Loc, Box<TEV>, Box<TEV>),
    Cond(Loc, Box<TEV>, Box<TEV>, Box<TEV>),
    Arith(Loc, BinaryOp, Box<TEV>, Box<TEV>),
    Logic(Loc, BinaryOp, Box<TEV>, Box<TEV>),
    Block(Loc, Seq<TSV>),
}

/// The view of a typed block statement.
pub ghost enum TSV {
    Assign(Loc, Seq<char>, TEV),
    Expr(TEV),
}

pub open spec fn tev_loc(t: TEV) -> Loc {
    match t {
        TEV::Val(l, _) => l,
        TEV::Local(l, _, _) => l,
        TEV::Global(l, _, _) => l,
        TEV::Then(l, _, _) => l,
        TEV::Cond(l, _, _, _) => l,
        TEV::Arith(l, _, _, _) => l,
        TEV::Logic(l, _, _, _) => l,
        TEV::Block(l, _) => l,
    }
}

pub open spec fn tsv_expr(s: TSV) -> TEV {
    match s {
        TSV::Assign(_, _, t) => t,
        TSV::Expr(t) => t,
    }
}

/// The type of a typed expression.
pub open spec fn tev_type(t: TEV) -> TypeV
    decreases t,
{
    match t {
        TEV::Val(_, v) => value_type(v),
        TEV::Local(_, _, ty) => ty,
        TEV::Global(_, _, ty) => ty,
        TEV::Then(_, _, b) => tev_type(*b),
        TEV::Cond(_, _, a, _) => tev_type(*a),
        TEV::Arith(_, _, _, _) => TypeV::Integer,
        TEV::Logic(_, _, _, _) => TypeV::Boolean,
        TEV::Block(_, ss) => if ss.len() == 0 {
            TypeV::Unit
        } else {
            match ss[ss.len() - 1] {
                TSV::Assign(_, _, x) => tev_type(x),
                TSV::Expr(x) => tev_type(x),
            }
        },
    }
}

/// What the checker knows besides the locals: the global values with their
/// types and the singleton types defined so far.
pub ghost struct Ctx {
    pub globals: Seq<(Seq<char>, TypeV)>,
    pub types: Seq<Seq<char>>,
}

pub open spec fn merge<A, B>(a: Result<A, Errs>, b: Result<B, Errs>) -> Result<(A, B), Errs> {
    match (a, b) {
        (Err(x), Err(y)) => Err(x + y),
        (Err(x), Ok(_)) => Err(x),
        (Ok(_), Err(y)) => Err(y),
        (Ok(x), Ok(y)) => Ok((x, y)),
    }
}

/// A type symbol used as a value: the only value of its type.
pub open spec fn tsym_value(ctx: Ctx, loc: Loc, t: Seq<char>) -> Result<TEV, Errs> {
    match known_of(t) {
        Some(k) => match singleton_of(known_type(k)) {
            Some(v) => Ok(TEV::Val(loc, v)),
            None => Err(seq![(loc, ErrV::SingletonExpected(known_type(k)))]),
        },
        None => if ctx.types.contains(t) {
            Ok(TEV::Val(loc, ValueV::Singleton(t)))
        } else {
            Err(seq![(loc, ErrV::UnknownLocalType(t))])
        },
    }
}

pub open spec fn int_err(t: TEV) -> Errs {
    if tev_type(t) == TypeV::Integer {
        seq![]
    } else {
        seq![(tev_loc(t), ErrV::TypeMismatch(TypeV::Integer, tev_type(t)))]
    }
}

pub open spec fn bool_err(t: TEV) -> Errs {
    if is_boolean(tev_type(t)) {
        seq![]
    } else {
        seq![(tev_loc(t), ErrV::TypeMismatch(TypeV::Boolean, tev_type(t)))]
    }
}

/// `b` must have the type of `a`.
pub open spec fn same_err(a: TEV, b: TEV) -> Errs {
    if tev_type(a) == tev_type(b) {
        seq![]
    } else {
        seq![(tev_loc(b), ErrV::TypeMismatch(tev_type(a), tev_type(b)))]
    }
}

pub open spec fn is_arith(op: BinaryOp) -> bool {
    op == BinaryOp::Add || op == BinaryOp::Sub || op == BinaryOp::Mul || op == BinaryOp::Div
}

pub open spec fn is_logic(op: BinaryOp) -> bool {
    op == BinaryOp::And || op == BinaryOp::Or
}

/// A binary operation on checked operands.
pub open spec fn binary_of(loc: Loc, op: BinaryOp, a: TEV, b: TEV) -> Result<TEV, Errs> {
    if is_arith(op) {
        if (int_err(a) + int_err(b)).len() == 0 {
            Ok(TEV::Arith(loc, op, Box::new(a), Box::new(b)))
        } else {
            Err(int_err(a) + int_err(b))
        }
    } else if is_logic(op) {
        if (bool_err(a) + bool_err(b)).len() == 0 {
            Ok(TEV::Logic(loc, op, Box::new(a), Box::new(b)))
        } else {
            Err(bool_err(a) + bool_err(b))
        }
    } else {
        Err(seq![(loc, ErrV::Other(Error::InvalidType))])
    }
}

/// A conditional on checked parts.
pub open spec fn cond_of(loc: Loc, c: TEV, a: TEV, b: TEV) -> Result<TEV, Errs> {
    if (bool_err(c) + same_err(a, b)).len() == 0 {
        Ok(TEV::Cond(loc, Box::new(c), Box::new(a), Box::new(b)))
    } else {
        Err(bool_err(c) + same_err(a, b))
    }
}

/// The typed tree of an expression, given the types of the locals in scope.
pub open spec fn check_expr(ctx: Ctx, locals: Seq<(Seq<char>, TypeV)>, e: EV) -> Result<TEV, Errs>
    decreases e,
{
    match e {
        EV::Lit(loc, n) => Ok(TEV::Val(loc, ValueV::Int(n))),
        EV::Sym(loc, s) => match lookup(locals, s) {
            Some(t) => Ok(TEV::Local(loc, s, t)),
            None => match lookup(ctx.globals, s) {
                Some(t) => Ok(TEV::Global(loc, s, t)),
                None => Err(seq![(loc, ErrV::UnknownSymbol(s))]),
            },
        },
        EV::TSym(loc, t) => tsym_value(ctx, loc, t),
        EV::Binary(loc, op, a, b) => match merge(
            check_expr(ctx, locals, *a),
            check_expr(ctx, locals, *b),
        ) {
            Err(es) => Err(es),
            Ok((ta, tb)) => binary_of(loc, op, ta, tb),
        },
        EV::Cond(loc, c, a, b) => match merge(
            merge(check_expr(ctx, locals, *c), check_expr(ctx, locals, *a)),
            check_expr(ctx, locals, *b),
        ) {
            Err(es) => Err(es),
            Ok(((tc, ta), tb)) => cond_of(loc, tc, ta, tb),
        },
        EV::Then(loc, a, b) => match merge(check_expr(ctx, locals, *a), check_expr(ctx, locals, *b)) {
            Err(es) => Err(es),
            Ok((ta, tb)) => Ok(TEV::Then(loc, Box::new(ta), Box::new(tb))),
        },
        EV::Block(loc, ss) => if ss.len() == 0 {
            Ok(TEV::Val(loc, ValueV::Unit))
        } else {
            match check_stmts(ctx, locals, ss) {
                Err(es) => Err(es),
                Ok(ts) => Ok(TEV::Block(loc, ts)),
            }
        },
    }
}

/// The typed statements of a block; each assignment binds a new local for
/// the statements after it, and may not rebind a local in scope.
pub open spec fn check_stmts(ctx: Ctx, locals: Seq<(Seq<char>, TypeV)>, ss: Seq<SV>) -> Result<
    Seq<TSV>,
    Errs,
>
    decreases ss,
{
    if ss.len() == 0 {
        Ok(seq![])
    } else {
        match ss[0] {
            SV::Assign(l, s, x) => match check_expr(ctx, locals, x) {
                Err(es) => Err(es),
                Ok(t) => if lookup(locals, s) is Some {
                    Err(seq![(l, ErrV::DuplicateLocalSymbol(s))])
                } else {
                    match check_stmts(ctx, locals.push((s, tev_type(t))), ss.drop_first()) {
                        Err(es) => Err(es),
                        Ok(rest) => Ok(seq![TSV::Assign(l, s, t)] + rest),
                    }
                },
            },
            SV::Expr(x) => match check_expr(ctx, locals, x) {
                Err(es) => Err(es),
                Ok(t) => match check_stmts(ctx, locals, ss.drop_first()) {
                    Err(es) => Err(es),
                    Ok(rest) => Ok(seq![TSV::Expr(t)] + rest),
                },
            },
        }
    }
}

/// A typed expression and where it starts.
#[derive(Debug, PartialEq, Eq)]
pub struct TExpr {
    pub loc: Loc,
    pub expr: TE,
}

#[derive(Debug, PartialEq, Eq)]
pub enum TE {
    Val(Value),
    Local(Symbol, Type),
    Global(Symbol, Type),
    /// `first then second`.
    Then(Box<TExpr>, Box<TExpr>),
    Cond(Box<TExpr>, Box<TExpr>, Box<TExpr>),
    /// An operation on two integers.
    Arith(BinaryOp, Box<TExpr>, Box<TExpr>),
    /// An operation on two booleans.
    Logic(BinaryOp, Box<TExpr>, Box<TExpr>),
    Block(Vec<TStmt>),
}

#[derive(Debug, PartialEq, Eq)]
pub enum TStmt {
    Assign(Loc, Symbol, TExpr),
    Expr(TExpr),
}

pub open spec fn texpr_view(e: TExpr) -> TEV
    decreases e,
{
    match e.expr {
        TE::Val(v) => TEV::Val(e.loc, v@),
        TE::Local(s, t) => TEV::Local(e.loc, s@, t@),
        TE::Global(s, t) => TEV::Global(e.loc, s@, t@),
        TE::Then(a, b) => TEV::Then(e.loc, Box::new(texpr_view(*a)), Box::new(texpr_view(*b))),
        TE::Cond(c, a, b) => TEV::Cond(
            e.loc,
            Box::new(texpr_view(*c)),
            Box::new(texpr_view(*a)),
            Box::new(texpr_view(*b)),
        ),
        TE::Arith(op, a, b) => TEV::Arith(
            e.loc,
            op,
            Box::new(texpr_view(*a)),
            Box::new(texpr_view(*b)),
        ),
        TE::Logic(op, a, b) => TEV::Logic(
            e.loc,
            op,
            Box::new(texpr_view(*a)),
            Box::new(texpr_view(*b)),
        ),
        TE::Block(v) => TEV::Block(e.loc, tstmts_view(v@)),
    }
}

pub open spec fn tstmt_view(s: TStmt) -> TSV
    decreases s,
{
    match s {
        TStmt::Assign(l, sym, e) => TSV::Assign(l, sym@, texpr_view(e)),
        TStmt::Expr(e) => TSV::Expr(texpr_view(e)),
    }
}

pub open spec fn tstmts_view(s: Seq<TStmt>) -> Seq<TSV>
    decreases s,
{
    if s.len() == 0 {
        seq![]
    } else {
        seq![tstmt_view(s[0])] + tstmts_view(s.drop_first())
    }
}

impl View for TExpr {
    type V = TEV;

    open spec fn view(&self) -> TEV {
        texpr_view(*self)
    }
}

pub proof fn lemma_tstmts_view(s: Seq<TStmt>)
    ensures
        tstmts_view(s).len() == s.len(),
        forall|i: int| 0 <= i < s.len() ==> #[trigger] tstmts_view(s)[i] == tstmt_view(s[i]),
    decreases s.len(),
{
    if s.len() > 0 {
        lemma_tstmts_view(s.drop_first());
        assert forall|i: int| 0 <= i < s.len() implies #[trigger] tstmts_view(s)[i] == tstmt_view(
            s[i],
        ) by {
            if i > 0 {
                assert(tstmts_view(s)[i] == tstmts_view(s.drop_first())[i - 1]);
            }
        }
    }
}

proof fn lemma_tstmts_view_push(s: Seq<TStmt>, x: TStmt)
    ensures
        tstmts_view(s.push(x)) == tstmts_view(s).push(tstmt_view(x)),
{
    lemma_tstmts_view(s);
    lemma_tstmts_view(s.push(x));
    assert(tstmts_view(s.push(x)) =~= tstmts_view(s).push(tstmt_view(x)));
}

impl TExpr {
    /// The type of the expression.
    pub fn type_of(&self) -> (r: Type)
        ensures
            r@ == tev_type(self@),
        decreases self,
    {
        match &self.expr {
            TE::Val(v) => v.get_type(),
            TE::Local(_, t) => t.duplicate(),
            TE::Global(_, t) => t.duplicate(),
            TE::Then(_, b) => b.type_of(),
            TE::Cond(_, a, _) => a.type_of(),
            TE::Arith(_, _, _) => Type::Integer,
            TE::Logic(_, _, _) => Type::Boolean,
            TE::Block(v) => {
                proof {
                    lemma_tstmts_view(v@);
                }
                if v.len() == 0 {
                    Type::Unit
                } else {
                    match &v[v.len() - 1] {
                        TStmt::Assign(_, _, x) => x.type_of(),
                        TStmt::Expr(x) => x.type_of(),
                    }
                }
            },
        }
    }
}

/// A name bound to a type.
#[derive(Debug)]
pub struct Binding {
    pub symbol: Symbol,
    pub tipo: Type,
}

pub open spec fn bindings_view(b: Seq<Binding>) -> Seq<(Seq<char>, TypeV)> {
    b.map_values(|x: Binding| (x.symbol@, x.tipo@))
}

pub open spec fn tsymbols_view(t: Seq<TSymbol>) -> Seq<Seq<char>> {
    t.map_values(|x: TSymbol| x@)
}

/// The context that global bindings and defined types make.
pub open spec fn ctx_of(globals: Seq<Binding>, types: Seq<TSymbol>) -> Ctx {
    Ctx { globals: bindings_view(globals), types: tsymbols_view(types) }
}

pub open spec fn res_view(r: Result<TExpr, ErrorVec>) -> Result<TEV, Errs> {
    match r {
        Ok(x) => Ok(x@),
        Err(e) => Err(errs_view(e@)),
    }
}

pub open spec fn pair_view(r: Result<(TExpr, TExpr), ErrorVec>) -> Result<(TEV, TEV), Errs> {
    match r {
        Ok((x, y)) => Ok((x@, y@)),
        Err(e) => Err(errs_view(e@)),
    }
}

pub open spec fn triple_view(r: Result<((TExpr, TExpr), TExpr), ErrorVec>) -> Result<
    ((TEV, TEV), TEV),
    Errs,
> {
    match r {
        Ok(((x, y), z)) => Ok(((x@, y@), z@)),
        Err(e) => Err(errs_view(e@)),
    }
}

pub proof fn lemma_errs_view_add(a: Seq<(Loc, Error)>, b: Seq<(Loc, Error)>)
    ensures
        errs_view(a + b) == errs_view(a) + errs_view(b),
{
    assert(errs_view(a + b) =~= errs_view(a) + errs_view(b));
}

/// The latest binding of a name, one step at a time from the end.
pub proof fn lemma_lookup_prefix<T>(l: Seq<(Seq<char>, T)>, s: Seq<char>, i: int)
    requires
        0 <= i < l.len(),
    ensures
        lookup(l.subrange(0, i + 1), s) == if l[i].0 == s {
            Some(l[i].1)
        } else {
            lookup(l.subrange(0, i), s)
        },
{
    assert(l.subrange(0, i + 1).drop_last() =~= l.subrange(0, i));
}

/// The position of the latest binding of `s`.
pub fn find_binding(l: &Vec<Binding>, s: &Symbol) -> (r: Option<usize>)
    ensures
        match lookup(bindings_view(l@), s@) {
            Some(t) => r matches Some(i) && i < l@.len() && l@[i as int].tipo@ == t
                && l@[i as int].symbol@ == s@,
            None => r is None,
        },
{
    let ghost v = bindings_view(l@);
    let mut i: usize = l.len();
    assert(v.subrange(0, i as int) =~= v);
    while i > 0
        invariant
            i <= l@.len(),
            v == bindings_view(l@),
            lookup(v, s@) == lookup(v.subrange(0, i as int), s@),
        decreases i,
    {
        proof {
            lemma_lookup_prefix(v, s@, i - 1);
        }
        if l[i - 1].symbol.same(s) {
            return Some(i - 1);
        }
        i = i - 1;
    }
    None
}

/// Whether a type of that name is defined.
pub fn has_type_symbol(types: &Vec<TSymbol>, t: &TSymbol) -> (r: bool)
    ensures
        r == tsymbols_view(types@).contains(t@),
{
    let mut i: usize = 0;
    while i < types.len()
        invariant
            i <= types@.len(),
            forall|j: int| 0 <= j < i ==> types@[j]@ != t@,
        decreases types@.len() - i,
    {
        if types[i].same_text(t) {
            assert(tsymbols_view(types@)[i as int] == t@);
            return true;
        }
        i = i + 1;
    }
    proof {
        if tsymbols_view(types@).contains(t@) {
            let j = choose|j: int| 0 <= j < tsymbols_view(types@).len() && tsymbols_view(types@)[j] == t@;
            assert(types@[j]@ == t@);
        }
    }
    false
}

fn merge2(a: Result<TExpr, ErrorVec>, b: Result<TExpr, ErrorVec>) -> (r: Result<(TExpr, TExpr), ErrorVec>)
    ensures
        pair_view(r) == merge(res_view(a), res_view(b)),
{
    match (a, b) {
        (Err(mut x), Err(y)) => {
            let ghost (xv, yv) = (x@, y@);
            x.append(y);
            proof {
                lemma_errs_view_add(xv, yv);
            }
            Err(x)
        },
        (Err(x), Ok(_)) => Err(x),
        (Ok(_), Err(y)) => Err(y),
        (Ok(x), Ok(y)) => Ok((x, y)),
    }
}

fn merge3(ab: Result<(TExpr, TExpr), ErrorVec>, c: Result<TExpr, ErrorVec>) -> (r: Result<
    ((TExpr, TExpr), TExpr),
    ErrorVec,
>)
    ensures
        triple_view(r) == merge(pair_view(ab), res_view(c)),
{
    match (ab, c) {
        (Err(mut x), Err(y)) => {
            let ghost (xv, yv) = (x@, y@);
            x.append(y);
            proof {
                lemma_errs_view_add(xv, yv);
            }
            Err(x)
        },
        (Err(x), Ok(_)) => Err(x),
        (Ok(_), Err(y)) => Err(y),
        (Ok(x), Ok(y)) => Ok((x, y)),
    }
}

/// Adds to `errs` the error of `t` when it is not an integer.
fn expect_integer(errs: &mut ErrorAcc, t: &TExpr)
    requires
        errors_wf(old(errs).acc),
    ensures
        errors_wf(final(errs).acc),
        errs_view(final(errs).acc@) == errs_view(old(errs).acc@) + int_err(t@),
{
    let ty = t.type_of();
    let ghost before = errs.acc@;
    if !ty.is_integer() {
        errs.acc.add(&t.loc, Error::TypeMismatch(Type::Integer, ty));
        assert(errs_view(errs.acc@) =~= errs_view(before) + int_err(t@));
    } else {
        assert(errs_view(errs.acc@) =~= errs_view(before) + int_err(t@));
    }
}

/// Adds to `errs` the error of `t` when it is not a boolean.
fn expect_boolean(errs: &mut ErrorAcc, t: &TExpr)
    requires
        errors_wf(old(errs).acc),
    ensures
        errors_wf(final(errs).acc),
        errs_view(final(errs).acc@) == errs_view(old(errs).acc@) + bool_err(t@),
{
    let ty = t.type_of();
    let ghost before = errs.acc@;
    if !ty.is_boolean() {
        errs.acc.add(&t.loc, Error::TypeMismatch(Type::Boolean, ty));
        assert(errs_view(errs.acc@) =~= errs_view(before) + bool_err(t@));
    } else {
        assert(errs_view(errs.acc@) =~= errs_view(before) + bool_err(t@));
    }
}

/// Adds to `errs` the error of `b` when its type is not that of `a`.
fn expect_same(errs: &mut ErrorAcc, a: &TExpr, b: &TExpr)
    requires
        errors_wf(old(errs).acc),
    ensures
        errors_wf(final(errs).acc),
        errs_view(final(errs).acc@) == errs_view(old(errs).acc@) + same_err(a@, b@),
{
    let ta = a.type_of();
    let tb = b.type_of();
    let ghost before = errs.acc@;
    if !ta.same(&tb) {
        errs.acc.add(&b.loc, Error::TypeMismatch(ta, tb));
        assert(errs_view(errs.acc@) =~= errs_view(before) + same_err(a@, b@));
    } else {
        assert(errs_view(errs.acc@) =~= errs_view(before) + same_err(a@, b@));
    }
}

/// The errors found so far about one node.
struct ErrorAcc {
    acc: Errors,
}

fn op_is_arith(op: BinaryOp) -> (r: bool)
    ensures
        r == is_arith(op),
{
    matches!(op, BinaryOp::Add | BinaryOp::Sub | BinaryOp::Mul | BinaryOp::Div)
}

fn op_is_logic(op: BinaryOp) -> (r: bool)
    ensures
        r == is_logic(op),
{
    matches!(op, BinaryOp::And | BinaryOp::Or)
}

fn binary_exec(loc: Loc, op: BinaryOp, a: TExpr, b: TExpr) -> (r: Result<TExpr, ErrorVec>)
    ensures
        res_view(r) == binary_of(loc, op, a@, b@),
{
    let mut errs = ErrorAcc { acc: Errors::new() };
    assert(errs_view(errs.acc@) =~= Seq::<(Loc, ErrV)>::empty());
    if op_is_arith(op) {
        expect_integer(&mut errs, &a);
        expect_integer(&mut errs, &b);
        assert(seq![] + int_err(a@) + int_err(b@) =~= int_err(a@) + int_err(b@));
        let e = TExpr { loc, expr: TE::Arith(op, Box::new(a), Box::new(b)) };
        errs.acc.to_result(e)
    } else if op_is_logic(op) {
        expect_boolean(&mut errs, &a);
        expect_boolean(&mut errs, &b);
        assert(seq![] + bool_err(a@) + bool_err(b@) =~= bool_err(a@) + bool_err(b@));
        let e = TExpr { loc, expr: TE::Logic(op, Box::new(a), Box::new(b)) };
        errs.acc.to_result(e)
    } else {
        let r = loc.err(Error::InvalidType);
        assert(errs_view(r->Err_0@) =~= seq![(loc, ErrV::Other(Error::InvalidType))]);
        r
    }
}

fn cond_exec(loc: Loc, c: TExpr, a: TExpr, b: TExpr) -> (r: Result<TExpr, ErrorVec>)
    ensures
        res_view(r) == cond_of(loc, c@, a@, b@),
{
    let mut errs = ErrorAcc { acc: Errors::new() };
    assert(errs_view(errs.acc@) =~= Seq::<(Loc, ErrV)>::empty());
    expect_boolean(&mut errs, &c);
    expect_same(&mut errs, &a, &b);
    assert(seq![] + bool_err(c@) + same_err(a@, b@) =~= bool_err(c@) + same_err(a@, b@));
    let e = TExpr { loc, expr: TE::Cond(Box::new(c), Box::new(a), Box::new(b)) };
    errs.acc.to_result(e)
}

/// A type symbol used as a value.
fn tsym_exec(types: &Vec<TSymbol>, loc: Loc, t: &TSymbol) -> (r: Result<TExpr, ErrorVec>)
    ensures
        res_view(r) == tsym_value(ctx_of(seq![], types@), loc, t@),
{
    match t.known() {
        Some(k) => {
            let ty = Type::known(k);
            match Value::v_singleton(&loc, &ty) {
                Ok(v) => Ok(TExpr { loc, expr: TE::Val(v) }),
                Err(e) => {
                    assert(errs_view(e@) =~= seq![(loc, ErrV::SingletonExpected(known_type(k)))]);
                    Err(e)
                },
            }
        },
        None => if has_type_symbol(types, t) {
            Ok(TExpr { loc, expr: TE::Val(Value::Singleton(t.duplicate())) })
        } else {
            let r = loc.err(Error::UnknownLocalType(t.duplicate()));
            assert(errs_view(r->Err_0@) =~= seq![(loc, ErrV::UnknownLocalType(t@))]);
            r
        },
    }
}

/// A copy of a list of bindings.
pub(crate) fn copy_bindings(l: &Vec<Binding>) -> (r: Vec<Binding>)
    ensures
        bindings_view(r@) == bindings_view(l@),
{
    let mut r: Vec<Binding> = Vec::new();
    let mut i: usize = 0;
    while i < l.len()
        invariant
            i <= l@.len(),
            bindings_view(r@) == bindings_view(l@).subrange(0, i as int),
        decreases l@.len() - i,
    {
        let b = Binding { symbol: l[i].symbol.duplicate(), tipo: l[i].tipo.duplicate() };
        let ghost before = r@;
        r.push(b);
        assert(r@ == before.push(b));
        assert(bindings_view(r@) =~= bindings_view(before).push((b.symbol@, b.tipo@)));
        assert(bindings_view(l@).subrange(0, i + 1) =~= bindings_view(l@).subrange(0, i as int).push(
            bindings_view(l@)[i as int],
        ));
        i = i + 1;
    }
    assert(bindings_view(l@).subrange(0, i as int) =~= bindings_view(l@));
    r
}

/// The outcome of checking a list of statements after `p` was checked.
pub open spec fn prepend(p: Seq<TSV>, r: Result<Seq<TSV>, Errs>) -> Result<Seq<TSV>, Errs> {
    match r {
        Ok(x) => Ok(p + x),
        Err(e) => Err(e),
    }
}

proof fn lemma_prepend_one(p: Seq<TSV>, x: TSV, r: Result<Seq<TSV>, Errs>)
    ensures
        prepend(
            p,
            match r {
                Ok(rest) => Ok(seq![x] + rest),
                Err(e) => Err(e),
            },
        ) == prepend(p.push(x), r),
{
    match r {
        Ok(rest) => {
            assert(p + (seq![x] + rest) =~= p.push(x) + rest);
        },
        Err(_) => {},
    }
}

/// Checks an expression: its typed tree, or the errors found.
pub fn check_expression(
    globals: &Vec<Binding>,
    types: &Vec<TSymbol>,
    locals: &Vec<Binding>,
    e: &Expression,
) -> (r: Result<TExpr, ErrorVec>)
    ensures
        res_view(r) == check_expr(ctx_of(globals@, types@), bindings_view(locals@), e@),
    decreases e,
{
    let loc = e.loc;
    match &e.expr {
        Expr::LitInteger(n) => Ok(TExpr { loc, expr: TE::Val(Value::Integer(n.duplicate())) }),
        Expr::Symbol(s) => match find_binding(locals, s) {
            Some(i) => Ok(TExpr { loc, expr: TE::Local(s.duplicate(), locals[i].tipo.duplicate()) }),
            None => match find_binding(globals, s) {
                Some(i) => Ok(
                    TExpr { loc, expr: TE::Global(s.duplicate(), globals[i].tipo.duplicate()) },
                ),
                None => {
                    let r = loc.err(Error::UnknownSymbol(s.duplicate()));
                    assert(errs_view(r->Err_0@) =~= seq![(loc, ErrV::UnknownSymbol(s@))]);
                    r
                },
            },
        },
        Expr::TSymbol(t) => tsym_exec(types, loc, t),
        Expr::Binary(op, a, b) => {
            let ra = check_expression(globals, types, locals, a);
            let rb = check_expression(globals, types, locals, b);
            match merge2(ra, rb) {
                Err(x) => Err(x),
                Ok((ta, tb)) => binary_exec(loc, *op, ta, tb),
            }
        },
        Expr::Conditional(c, a, b) => {
            let rc = check_expression(globals, types, locals, c);
            let ra = check_expression(globals, types, locals, a);
            let rb = check_expression(globals, types, locals, b);
            match merge3(merge2(rc, ra), rb) {
                Err(x) => Err(x),
                Ok(((tc, ta), tb)) => cond_exec(loc, tc, ta, tb),
            }
        },
        Expr::Then(a, b) => {
            let ra = check_expression(globals, types, locals, a);
            let rb = check_expression(globals, types, locals, b);
            match merge2(ra, rb) {
                Err(x) => Err(x),
                Ok((ta, tb)) => Ok(TExpr { loc, expr: TE::Then(Box::new(ta), Box::new(tb)) }),
            }
        },
        Expr::Block(v) => {
            proof {
                lemma_stmts_view(v@);
            }
            if v.len() == 0 {
                return Ok(TExpr { loc, expr: TE::Val(Value::Unit) });
            }
            match check_block(globals, types, locals, v) {
                Err(x) => Err(x),
                Ok(out) => Ok(TExpr { loc, expr: TE::Block(out) }),
            }
        },
    }
}

/// Checks the statements of a block, in a scope of its own.
fn check_block(globals: &Vec<Binding>, types: &Vec<TSymbol>, locals: &Vec<Binding>, v: &Vec<BStmt>) -> (r: Result<Vec<TStmt>, ErrorVec>)
    ensures
        match check_stmts(ctx_of(globals@, types@), bindings_view(locals@), stmts_view(v@)) {
            Ok(ts) => r matches Ok(x) && tstmts_view(x@) == ts,
            Err(es) => r matches Err(x) && errs_view(x@) == es,
        },
    decreases v,
{
            let ghost ctx = ctx_of(globals@, types@);
            let ghost ss = stmts_view(v@);
            let ghost l0 = bindings_view(locals@);
            proof {
                lemma_stmts_view(v@);
                assert(ss.subrange(0, v@.len() as int) =~= ss);
                assert(tstmts_view(Seq::<TStmt>::empty()) =~= Seq::<TSV>::empty());
                assert(prepend(seq![], check_stmts(ctx, l0, ss)) == check_stmts(ctx, l0, ss)) by {
                    match check_stmts(ctx, l0, ss) {
                        Ok(x) => {
                            assert(Seq::<TSV>::empty() + x =~= x);
                        },
                        Err(_) => {},
                    }
                }
            }
            let mut inner = copy_bindings(locals);
            let mut out: Vec<TStmt> = Vec::new();
            let mut i: usize = 0;
            while i < v.len()
                invariant
                    i <= v@.len(),
                    ctx == ctx_of(globals@, types@),
                    l0 == bindings_view(locals@),
                    ss == stmts_view(v@),
                    ss.len() == v@.len(),
                    forall|j: int| 0 <= j < v@.len() ==> #[trigger] ss[j] == stmt_view(v@[j]),
                    check_stmts(ctx, l0, ss) == prepend(
                        tstmts_view(out@),
                        check_stmts(ctx, bindings_view(inner@), ss.subrange(i as int, ss.len() as int)),
                    ),
                decreases v@.len() - i,
            {
                let ghost rest = ss.subrange(i as int, ss.len() as int);
                let ghost li = bindings_view(inner@);
                let ghost before = tstmts_view(out@);
                assert(check_stmts(ctx, l0, ss) == prepend(before, check_stmts(ctx, li, rest)));
                proof {
                    assert(rest[0] == ss[i as int]);
                    assert(rest.drop_first() =~= ss.subrange(i + 1, ss.len() as int));
                    lemma_check_stmts_unfold(ctx, li, rest);
                }
                let ghost sv = stmt_view(v@[i as int]);
                assert(rest[0] == sv);
                match check_statement(globals, types, &mut inner, &mut out, &v[i]) {
                    Err(x) => {
                        assert(stmt_step(ctx, li, sv) is Err);
                        assert(check_stmts(ctx, li, rest) == Err::<Seq<TSV>, Errs>(errs_view(x@)));
                        return Err(x);
                    },
                    Ok(()) => {
                        proof {
                            let (t, l2) = stmt_step(ctx, li, ss[i as int])->Ok_0;
                            lemma_prepend_one(before, t, check_stmts(ctx, l2, rest.drop_first()));
                        }
                    },
                }
                i = i + 1;
            }
            proof {
                assert(tstmts_view(out@) + seq![] =~= tstmts_view(out@));
            }
            Ok(out)
}


/// One statement of a block: its typed form and the locals after it.
pub open spec fn stmt_step(ctx: Ctx, locals: Seq<(Seq<char>, TypeV)>, sv: SV) -> Result<
    (TSV, Seq<(Seq<char>, TypeV)>),
    Errs,
> {
    match sv {
        SV::Assign(l, s, x) => match check_expr(ctx, locals, x) {
            Err(es) => Err(es),
            Ok(t) => if lookup(locals, s) is Some {
                Err(seq![(l, ErrV::DuplicateLocalSymbol(s))])
            } else {
                Ok((TSV::Assign(l, s, t), locals.push((s, tev_type(t)))))
            },
        },
        SV::Expr(x) => match check_expr(ctx, locals, x) {
            Err(es) => Err(es),
            Ok(t) => Ok((TSV::Expr(t), locals)),
        },
    }
}

proof fn lemma_check_stmts_unfold(ctx: Ctx, locals: Seq<(Seq<char>, TypeV)>, ss: Seq<SV>)
    requires
        ss.len() > 0,
    ensures
        check_stmts(ctx, locals, ss) == match stmt_step(ctx, locals, ss[0]) {
            Err(es) => Err(es),
            Ok((t, l2)) => match check_stmts(ctx, l2, ss.drop_first()) {
                Ok(rest) => Ok(seq![t] + rest),
                Err(e) => Err(e),
            },
        },
{
}

/// Checks one statement of a block: adds its typed form to `out` and, for an
/// assignment, its binding to `locals`.
fn check_statement(
    globals: &Vec<Binding>,
    types: &Vec<TSymbol>,
    locals: &mut Vec<Binding>,
    out: &mut Vec<TStmt>,
    s: &BStmt,
) -> (r: Result<(), ErrorVec>)
    ensures
        match stmt_step(ctx_of(globals@, types@), bindings_view(old(locals)@), stmt_view(*s)) {
            Err(es) => r matches Err(x) && errs_view(x@) == es,
            Ok((t, l2)) => r is Ok && bindings_view(final(locals)@) == l2 && tstmts_view(final(out)@)
                == tstmts_view(old(out)@).push(t),
        },
    decreases s,
{
    match s {
        BStmt::Assignment(l, a) => {
            match check_expression(globals, types, locals, &a.expr) {
                Err(x) => Err(x),
                Ok(t) => {
                    if find_binding(locals, &a.symbol).is_some() {
                        let r = l.err(Error::DuplicateLocalSymbol(a.symbol.duplicate()));
                        assert(errs_view(r->Err_0@) =~= seq![
                            (*l, ErrV::DuplicateLocalSymbol(a.symbol@)),
                        ]);
                        return r;
                    }
                    let ghost li = bindings_view(locals@);
                    let ghost tv = t@;
                    let ty = t.type_of();
                    locals.push(Binding { symbol: a.symbol.duplicate(), tipo: ty });
                    assert(bindings_view(locals@) =~= li.push((a.symbol@, tev_type(tv))));
                    let st = TStmt::Assign(*l, a.symbol.duplicate(), t);
                    proof {
                        lemma_tstmts_view_push(out@, st);
                    }
                    out.push(st);
                    Ok(())
                },
            }
        },
        BStmt::Expr(x) => {
            match check_expression(globals, types, locals, x) {
                Err(y) => Err(y),
                Ok(t) => {
                    let st = TStmt::Expr(t);
                    proof {
                        lemma_tstmts_view_push(out@, st);
                    }
                    out.push(st);
                    Ok(())
                },
            }
        },
    }
}


/// Typing of operators and conditionals: `+ - * /` take two integers and give
/// an integer, `&& ||` take two booleans and give a boolean, and an operand of
/// another type is reported as a mismatch where it stands; comparisons are not
/// typed yet; a conditional with a boolean condition and branches of one type
/// has that type.
pub proof fn law_operator_typing(
    ctx: Ctx,
    l: Seq<(Seq<char>, TypeV)>,
    loc: Loc,
    op: BinaryOp,
    a: EV,
    b: EV,
    c: EV,
    ta: TEV,
    tb: TEV,
    tc: TEV,
)
    requires
        check_expr(ctx, l, a) == Ok::<TEV, Errs>(ta),
        check_expr(ctx, l, b) == Ok::<TEV, Errs>(tb),
        check_expr(ctx, l, c) == Ok::<TEV, Errs>(tc),
    ensures
        (op == BinaryOp::Add || op == BinaryOp::Sub || op == BinaryOp::Mul || op == BinaryOp::Div)
            && tev_type(ta) == TypeV::Integer && tev_type(tb) == TypeV::Integer ==> (check_expr(
            ctx,
            l,
            EV::Binary(loc, op, Box::new(a), Box::new(b)),
        ) matches Ok(t) && tev_type(t) == TypeV::Integer && t == TEV::Arith(loc, op, Box::new(ta), Box::new(tb))),
        (op == BinaryOp::Add || op == BinaryOp::Sub || op == BinaryOp::Mul || op == BinaryOp::Div)
            && tev_type(ta) != TypeV::Integer ==> (check_expr(
            ctx,
            l,
            EV::Binary(loc, op, Box::new(a), Box::new(b)),
        ) matches Err(es) && es[0] == (tev_loc(ta), ErrV::TypeMismatch(TypeV::Integer, tev_type(ta)))),
        (op == BinaryOp::And || op == BinaryOp::Or) && is_boolean(tev_type(ta)) && is_boolean(tev_type(tb))
            ==> (check_expr(ctx, l, EV::Binary(loc, op, Box::new(a), Box::new(b))) matches Ok(t) && tev_type(t)
            == TypeV::Boolean),
        (op == BinaryOp::And || op == BinaryOp::Or) && !is_boolean(tev_type(ta)) ==> (check_expr(
            ctx,
            l,
            EV::Binary(loc, op, Box::new(a), Box::new(b)),
        ) matches Err(es) && es[0] == (tev_loc(ta), ErrV::TypeMismatch(TypeV::Boolean, tev_type(ta)))),
        !(op == BinaryOp::Add || op == BinaryOp::Sub || op == BinaryOp::Mul || op == BinaryOp::Div
            || op == BinaryOp::And || op == BinaryOp::Or) ==> check_expr(
            ctx,
            l,
            EV::Binary(loc, op, Box::new(a), Box::new(b)),
        ) == Err::<TEV, Errs>(seq![(loc, ErrV::Other(Error::InvalidType))]),
        is_boolean(tev_type(tc)) && tev_type(ta) == tev_type(tb) ==> (check_expr(
            ctx,
            l,
            EV::Cond(loc, Box::new(c), Box::new(a), Box::new(b)),
        ) matches Ok(t) && tev_type(t) == tev_type(ta)),
{
}

} // verus!
