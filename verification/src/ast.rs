//! The abstract syntax tree that the parser builds.
use vstd::prelude::*;

use crate::error::Loc;
use crate::integer::Integer;
use crate::symbol::{Symbol, TSymbol, Visibility};

verus! {

#[derive(Clone, Copy, Debug, PartialEq, Eq, Structural)]
pub enum UnaryOp {
    Minus,
    Not,
}

#[derive(Clone, Copy, Debug, PartialEq, Eq, Structural)]
pub enum BinaryOp {
    Add,
    Sub,
    Mul,
    Div,
    Eq,
    NEq,
    GT,
    GE,
    LT,
    LE,
    And,
    Or,
}

/// An expression and where it starts.
#[derive(Debug, PartialEq, Eq)]
pub struct Expression {
    pub loc: Loc,
    pub expr: Expr,
}

#[derive(Debug, PartialEq, Eq)]
pub enum Expr {
    LitInteger(Integer),
    Symbol(Symbol),
    TSymbol(TSymbol),
    Binary(BinaryOp, Box<Expression>, Box<Expression>),
    Conditional(Box<Expression>, Box<Expression>, Box<Expression>),
    /// `first then second`.
    Then(Box<Expression>, Box<Expression>),
    Block(Vec<BStmt>),
}

/// `let symbol = expr`.
#[derive(Debug, PartialEq, Eq)]
pub struct Assignment {
    pub symbol: Symbol,
    pub expr: Expression,
}

/// A statement of a block.
#[derive(Debug, PartialEq, Eq)]
pub enum BStmt {
    Assignment(Loc, Assignment),
    Expr(Expression),
}

/// The mathematical view of an expression.
pub ghost enum EV {
    Lit(Loc, int),
    Sym(Loc, Seq<char>),
    TSym(Loc, Seq<char>),
    Binary(Loc, BinaryOp, Box<EV>, Box<EV>),
    Cond(Loc, Box<EV>, Box<EV>, Box<EV>),
    Then(Loc, Box<EV>, Box<EV>),
    Block(Loc, Seq<SV>),
}

/// The mathematical view of a block statement.
pub ghost enum SV {
    Assign(Loc, Seq<char>, EV),
    Expr(EV),
}

pub open spec fn expr_view(e: Expression) -> EV
    decreases e,
{
    match e.expr {
        Expr::LitInteger(n) => EV::Lit(e.loc, n@),
        Expr::Symbol(s) => EV::Sym(e.loc, s@),
        Expr::TSymbol(t) => EV::TSym(e.loc, t@),
        Expr::Binary(op, a, b) => EV::Binary(
            e.loc,
            op,
            Box::new(expr_view(*a)),
            Box::new(expr_view(*b)),
        ),
        Expr::Conditional(c, t, o) => EV::Cond(
            e.loc,
            Box::new(expr_view(*c)),
            Box::new(expr_view(*t)),
            Box::new(expr_view(*o)),
        ),
        Expr::Then(a, b) => EV::Then(e.loc, Box::new(expr_view(*a)), Box::new(expr_view(*b))),
        Expr::Block(v) => EV::Block(e.loc, stmts_view(v@)),
    }
}

pub open spec fn stmt_view(s: BStmt) -> SV
    decreases s,
{
    match s {
        BStmt::Assignment(loc, a) => SV::Assign(loc, a.symbol@, expr_view(a.expr)),
        BStmt::Expr(e) => SV::Expr(expr_view(e)),
    }
}

pub open spec fn stmts_view(s: Seq<BStmt>) -> Seq<SV>
    decreases s,
{
    if s.len() == 0 {
        seq![]
    } else {
        seq![stmt_view(s[0])] + stmts_view(s.drop_first())
    }
}

/// The views of statements, one by one.
pub proof fn lemma_stmts_view(s: Seq<BStmt>)
    ensures
        stmts_view(s).len() == s.len(),
        forall|i: int| 0 <= i < s.len() ==> #[trigger] stmts_view(s)[i] == stmt_view(s[i]),
    decreases s.len(),
{
    if s.len() > 0 {
        lemma_stmts_view(s.drop_first());
        assert forall|i: int| 0 <= i < s.len() implies #[trigger] stmts_view(s)[i] == stmt_view(s[i]) by {
            if i > 0 {
                assert(stmts_view(s)[i] == stmts_view(s.drop_first())[i - 1]);
            }
        }
    }
}

impl View for Expression {
    type V = EV;

    open spec fn view(&self) -> EV {
        expr_view(*self)
    }
}

/// How a type is defined.
#[derive(Clone, Copy, Debug, PartialEq, Eq, Structural)]
pub enum TypeDfn {
    Singleton,
}

/// `type Symbol`.
#[derive(Debug, PartialEq, Eq)]
pub struct TypeDefinition {
    pub loc: Loc,
    pub symbol: TSymbol,
    pub dfn: TypeDfn,
}

/// A top-level `let`, with its visibility.
#[derive(Debug, PartialEq, Eq)]
pub struct TLAssignment {
    pub loc: Loc,
    pub visibility: Visibility,
    pub assignment: Assignment,
}

/// What a module holds: type definitions, top-level assignments and expressions.
#[derive(Debug, PartialEq, Eq)]
pub struct Module {
    pub types: Vec<TypeDefinition>,
    pub assignments: Vec<TLAssignment>,
    pub expressions: Vec<Expression>,
}

/// The mathematical view of a module.
pub ghost struct ModuleV {
    pub types: Seq<(Loc, Seq<char>)>,
    pub assignments: Seq<(Visibility, Loc, Seq<char>, EV)>,
    pub exprs: Seq<EV>,
}

pub open spec fn module_view(m: Module) -> ModuleV {
    ModuleV {
        types: m.types@.map_values(|t: TypeDefinition| (t.loc, t.symbol@)),
        assignments: m.assignments@.map_values(
            |a: TLAssignment| (a.visibility, a.loc, a.assignment.symbol@, expr_view(a.assignment.expr)),
        ),
        exprs: m.expressions@.map_values(|e: Expression| expr_view(e)),
    }
}

impl Module {
    pub fn new() -> (r: Module)
        ensures
            module_view(r) == (ModuleV { types: seq![], assignments: seq![], exprs: seq![] }),
    {
        let r = Module { types: Vec::new(), assignments: Vec::new(), expressions: Vec::new() };
        assert(module_view(r).types =~= seq![]);
        assert(module_view(r).assignments =~= seq![]);
        assert(module_view(r).exprs =~= seq![]);
        r
    }
}


/// Equality that looks past where things stand in the source.
pub trait EqNoPosition: Sized {
    /// Whether the two are equal once positions are left out.
    spec fn same_nopos(&self, other: &Self) -> bool;

    fn eq_nopos(&self, other: &Self) -> (r: bool)
        ensures
            r == self.same_nopos(other),
    ;
}

/// Two expression views are equal but for their locations.
pub open spec fn ev_same(a: EV, b: EV) -> bool
    decreases a,
{
    match a {
        EV::Lit(_, n) => match b {
            EV::Lit(_, m) => n == m,
            _ => false,
        },
        EV::Sym(_, s) => match b {
            EV::Sym(_, t) => s == t,
            _ => false,
        },
        EV::TSym(_, s) => match b {
            EV::TSym(_, t) => s == t,
            _ => false,
        },
        EV::Binary(_, op, x, y) => match b {
            EV::Binary(_, op2, x2, y2) => op == op2 && ev_same(*x, *x2) && ev_same(*y, *y2),
            _ => false,
        },
        EV::Cond(_, c, t, o) => match b {
            EV::Cond(_, c2, t2, o2) => ev_same(*c, *c2) && ev_same(*t, *t2) && ev_same(*o, *o2),
            _ => false,
        },
        EV::Then(_, x, y) => match b {
            EV::Then(_, x2, y2) => ev_same(*x, *x2) && ev_same(*y, *y2),
            _ => false,
        },
        EV::Block(_, s) => match b {
            EV::Block(_, t) => svs_same(s, t),
            _ => false,
        },
    }
}

/// Two statement views are equal but for their locations.
pub open spec fn sv_same(a: SV, b: SV) -> bool
    decreases a,
{
    match a {
        SV::Assign(_, s, x) => match b {
            SV::Assign(_, t, y) => s == t && ev_same(x, y),
            _ => false,
        },
        SV::Expr(x) => match b {
            SV::Expr(y) => ev_same(x, y),
            _ => false,
        },
    }
}

/// Two sequences of statement views are equal, one by one, but for locations.
pub open spec fn svs_same(a: Seq<SV>, b: Seq<SV>) -> bool
    decreases a,
{
    if a.len() == 0 {
        b.len() == 0
    } else {
        b.len() > 0 && sv_same(a[0], b[0]) && svs_same(a.drop_first(), b.drop_first())
    }
}

proof fn lemma_svs_same(a: Seq<SV>, b: Seq<SV>)
    ensures
        svs_same(a, b) <==> (a.len() == b.len() && forall|i: int|
            0 <= i < a.len() ==> #[trigger] sv_same(a[i], b[i])),
    decreases a.len(),
{
    if a.len() > 0 && b.len() > 0 {
        lemma_svs_same(a.drop_first(), b.drop_first());
        if a.len() == b.len() && (forall|i: int| 0 <= i < a.len() ==> #[trigger] sv_same(a[i], b[i])) {
            assert(sv_same(a[0], b[0]));
            assert forall|i: int| 0 <= i < a.len() - 1 implies #[trigger] sv_same(
                a.drop_first()[i],
                b.drop_first()[i],
            ) by {
                assert(sv_same(a[i + 1], b[i + 1]));
            }
        }
        if svs_same(a, b) {
            assert forall|i: int| 0 <= i < a.len() implies #[trigger] sv_same(a[i], b[i]) by {
                if i > 0 {
                    assert(sv_same(a.drop_first()[i - 1], b.drop_first()[i - 1]));
                }
            }
        }
    }
}

/// Every expression equals itself once locations are left out.
pub proof fn law_ev_same_reflexive(a: EV)
    ensures
        ev_same(a, a),
    decreases a,
{
    match a {
        EV::Binary(_, _, x, y) => {
            law_ev_same_reflexive(*x);
            law_ev_same_reflexive(*y);
        },
        EV::Cond(_, c, t, o) => {
            law_ev_same_reflexive(*c);
            law_ev_same_reflexive(*t);
            law_ev_same_reflexive(*o);
        },
        EV::Then(_, x, y) => {
            law_ev_same_reflexive(*x);
            law_ev_same_reflexive(*y);
        },
        EV::Block(_, s) => {
            lemma_svs_same_reflexive(s);
        },
        _ => {},
    }
}

proof fn lemma_sv_same_reflexive(a: SV)
    ensures
        sv_same(a, a),
    decreases a,
{
    match a {
        SV::Assign(_, _, x) => law_ev_same_reflexive(x),
        SV::Expr(x) => law_ev_same_reflexive(x),
    }
}

proof fn lemma_svs_same_reflexive(a: Seq<SV>)
    ensures
        svs_same(a, a),
    decreases a,
{
    if a.len() > 0 {
        lemma_sv_same_reflexive(a[0]);
        lemma_svs_same_reflexive(a.drop_first());
    }
}

/// Equality without locations does not depend on the order of its operands.
pub proof fn law_ev_same_symmetric(a: EV, b: EV)
    ensures
        ev_same(a, b) == ev_same(b, a),
    decreases a,
{
    match (a, b) {
        (EV::Binary(_, _, x, y), EV::Binary(_, _, x2, y2)) => {
            law_ev_same_symmetric(*x, *x2);
            law_ev_same_symmetric(*y, *y2);
        },
        (EV::Cond(_, c, t, o), EV::Cond(_, c2, t2, o2)) => {
            law_ev_same_symmetric(*c, *c2);
            law_ev_same_symmetric(*t, *t2);
            law_ev_same_symmetric(*o, *o2);
        },
        (EV::Then(_, x, y), EV::Then(_, x2, y2)) => {
            law_ev_same_symmetric(*x, *x2);
            law_ev_same_symmetric(*y, *y2);
        },
        (EV::Block(_, s), EV::Block(_, t)) => {
            lemma_svs_same_symmetric(s, t);
        },
        _ => {},
    }
}

proof fn lemma_sv_same_symmetric(a: SV, b: SV)
    ensures
        sv_same(a, b) == sv_same(b, a),
    decreases a,
{
    match (a, b) {
        (SV::Assign(_, _, x), SV::Assign(_, _, y)) => law_ev_same_symmetric(x, y),
        (SV::Expr(x), SV::Expr(y)) => law_ev_same_symmetric(x, y),
        _ => {},
    }
}

proof fn lemma_svs_same_symmetric(a: Seq<SV>, b: Seq<SV>)
    ensures
        svs_same(a, b) == svs_same(b, a),
    decreases a,
{
    if a.len() > 0 && b.len() > 0 {
        lemma_sv_same_symmetric(a[0], b[0]);
        lemma_svs_same_symmetric(a.drop_first(), b.drop_first());
    }
}

fn integer_equal(a: &Integer, b: &Integer) -> (r: bool)
    ensures
        r == (a@ == b@),
{
    a.sub(b).is_zero()
}

fn expression_eq_nopos(a: &Expression, b: &Expression) -> (r: bool)
    ensures
        r == ev_same(a@, b@),
    decreases a,
{
    match (&a.expr, &b.expr) {
        (Expr::LitInteger(n), Expr::LitInteger(m)) => integer_equal(n, m),
        (Expr::Symbol(s), Expr::Symbol(t)) => s.same(t),
        (Expr::TSymbol(s), Expr::TSymbol(t)) => s.same_text(t),
        (Expr::Binary(op, x, y), Expr::Binary(op2, x2, y2)) => {
            *op == *op2 && expression_eq_nopos(x, x2) && expression_eq_nopos(y, y2)
        },
        (Expr::Conditional(c, t, o), Expr::Conditional(c2, t2, o2)) => {
            expression_eq_nopos(c, c2) && expression_eq_nopos(t, t2) && expression_eq_nopos(o, o2)
        },
        (Expr::Then(x, y), Expr::Then(x2, y2)) => {
            expression_eq_nopos(x, x2) && expression_eq_nopos(y, y2)
        },
        (Expr::Block(v), Expr::Block(w)) => block_eq_nopos(v, w),
        _ => false,
    }
}

fn stmt_eq_nopos(a: &BStmt, b: &BStmt) -> (r: bool)
    ensures
        r == sv_same(stmt_view(*a), stmt_view(*b)),
    decreases a,
{
    match (a, b) {
        (BStmt::Assignment(_, x), BStmt::Assignment(_, y)) => {
            x.symbol.same(&y.symbol) && expression_eq_nopos(&x.expr, &y.expr)
        },
        (BStmt::Expr(x), BStmt::Expr(y)) => expression_eq_nopos(x, y),
        _ => false,
    }
}

fn block_eq_nopos(v: &Vec<BStmt>, w: &Vec<BStmt>) -> (r: bool)
    ensures
        r == svs_same(stmts_view(v@), stmts_view(w@)),
    decreases v,
{
    proof {
        lemma_stmts_view(v@);
        lemma_stmts_view(w@);
        lemma_svs_same(stmts_view(v@), stmts_view(w@));
    }
    if v.len() != w.len() {
        return false;
    }
    let mut i: usize = 0;
    while i < v.len()
        invariant
            i <= v@.len(),
            v@.len() == w@.len(),
            stmts_view(v@).len() == v@.len(),
            stmts_view(w@).len() == w@.len(),
            forall|j: int| 0 <= j < v@.len() ==> #[trigger] stmts_view(v@)[j] == stmt_view(v@[j]),
            forall|j: int| 0 <= j < w@.len() ==> #[trigger] stmts_view(w@)[j] == stmt_view(w@[j]),
            svs_same(stmts_view(v@), stmts_view(w@)) <==> (forall|j: int|
                0 <= j < v@.len() ==> #[trigger] sv_same(stmts_view(v@)[j], stmts_view(w@)[j])),
            forall|j: int| 0 <= j < i ==> #[trigger] sv_same(stmt_view(v@[j]), stmt_view(w@[j])),
        decreases v@.len() - i,
    {
        if !stmt_eq_nopos(&v[i], &w[i]) {
            proof {
                assert(!sv_same(stmts_view(v@)[i as int], stmts_view(w@)[i as int]));
            }
            return false;
        }
        i = i + 1;
    }
    proof {
        assert forall|j: int| 0 <= j < stmts_view(v@).len() implies #[trigger] sv_same(
            stmts_view(v@)[j],
            stmts_view(w@)[j],
        ) by {
            assert(sv_same(stmt_view(v@[j]), stmt_view(w@[j])));
        }
    }
    true
}

impl EqNoPosition for Expression {
    open spec fn same_nopos(&self, other: &Self) -> bool {
        ev_same(self@, other@)
    }

    fn eq_nopos(&self, other: &Self) -> (r: bool) {
        expression_eq_nopos(self, other)
    }
}

impl EqNoPosition for BStmt {
    open spec fn same_nopos(&self, other: &Self) -> bool {
        sv_same(stmt_view(*self), stmt_view(*other))
    }

    fn eq_nopos(&self, other: &Self) -> (r: bool) {
        stmt_eq_nopos(self, other)
    }
}

impl<T: EqNoPosition> EqNoPosition for Vec<T> {
    open spec fn same_nopos(&self, other: &Self) -> bool {
        self@.len() == other@.len() && forall|i: int|
            0 <= i < self@.len() ==> #[trigger] self@[i].same_nopos(&other@[i])
    }

    fn eq_nopos(&self, other: &Self) -> (r: bool) {
        if self.len() != other.len() {
            return false;
        }
        let mut i: usize = 0;
        while i < self.len()
            invariant
                i <= self@.len(),
                self@.len() == other@.len(),
                forall|j: int| 0 <= j < i ==> #[trigger] self@[j].same_nopos(&other@[j]),
            decreases self@.len() - i,
        {
            if !self[i].eq_nopos(&other[i]) {
                return false;
            }
            i = i + 1;
        }
        true
    }
}

} // verus!
