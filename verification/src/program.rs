//! Checking a whole module into a package, and evaluating a package.
//!
//! Type definitions come first; a type may be defined once, and not with a
//! name the language knows. Top-level assignments define globals, each name
//! once. A global may use globals defined after it: the assignments are
//! checked and evaluated in dependency order, each as soon as none of the
//! pending ones is used in it (the earliest such first); when none can go,
//! the definitions are circular. Expressions come last.
use vstd::prelude::*;

use crate::ast::{BStmt, EV, Expr, Expression, Module, ModuleV, SV, TLAssignment, TypeDefinition, lemma_stmts_view, module_view, stmt_view, stmts_view};
use crate::checker::{
    Binding, Ctx, Errs, TEV, TExpr, bindings_view, check_expr, check_expression, copy_bindings,
    ctx_of, find_binding, has_type_symbol, lemma_errs_view_add, res_view, tev_type, tsymbols_view,
};
use crate::error::{ErrV, Error, ErrorVec, Errors, Loc, errors_wf, errs_view};
use crate::interpreter::{VBinding, VBindings, eval, eval_expr, vbindings_view, vres_view};
use crate::symbol::{Symbol, TSymbol, Visibility, known_of};
use crate::value::{Value, ValueV};
use crate::safety::lemma_lookup_push;
use crate::checker::{check_stmts, lookup};
use crate::ast::BinaryOp;

verus! {

/// A top-level assignment as the module holds it.
pub type AV = (Visibility, Loc, Seq<char>, EV);

/// Whether `s` is used in `e` where no local of a block hides it.
pub open spec fn occurs(e: EV, s: Seq<char>) -> bool
    decreases e,
{
    match e {
        EV::Lit(_, _) => false,
        EV::TSym(_, _) => false,
        EV::Sym(_, x) => x == s,
        EV::Binary(_, _, a, b) => occurs(*a, s) || occurs(*b, s),
        EV::Cond(_, c, a, b) => occurs(*c, s) || occurs(*a, s) || occurs(*b, s),
        EV::Then(_, a, b) => occurs(*a, s) || occurs(*b, s),
        EV::Block(_, ss) => occurs_stmts(ss, s),
    }
}

pub open spec fn occurs_stmts(ss: Seq<SV>, s: Seq<char>) -> bool
    decreases ss,
{
    if ss.len() == 0 {
        false
    } else {
        match ss[0] {
            SV::Assign(_, x, e) => occurs(e, s) || (x != s && occurs_stmts(ss.drop_first(), s)),
            SV::Expr(e) => occurs(e, s) || occurs_stmts(ss.drop_first(), s),
        }
    }
}

/// An assignment can be checked once it uses none of the pending ones.
pub open spec fn ready(a: AV, pending: Seq<AV>) -> bool {
    forall|j: int| 0 <= j < pending.len() ==> !occurs(a.3, #[trigger] pending[j].2)
}

/// The first pending assignment from `i` on that can be checked.
pub open spec fn first_ready(pending: Seq<AV>, i: int) -> Option<int>
    decreases pending.len() - i,
{
    if i < 0 || i >= pending.len() {
        None
    } else if ready(pending[i], pending) {
        Some(i)
    } else {
        first_ready(pending, i + 1)
    }
}

pub proof fn lemma_first_ready_range(pending: Seq<AV>, i: int)
    ensures
        first_ready(pending, i) matches Some(k) ==> i <= k < pending.len() && ready(
            pending[k],
            pending,
        ),
    decreases pending.len() - i,
{
    if 0 <= i < pending.len() && !ready(pending[i], pending) {
        lemma_first_ready_range(pending, i + 1);
    }
}

/// The assignments in the order they are checked and evaluated.
pub open spec fn order(pending: Seq<AV>) -> Result<Seq<AV>, Errs>
    decreases pending.len(),
{
    if pending.len() == 0 {
        Ok(seq![])
    } else {
        match first_ready(pending, 0) {
            None => Err(seq![(pending[0].1, ErrV::CircularDefinition(pending[0].2))]),
            Some(i) => {
                proof {
                    lemma_first_ready_range(pending, 0);
                }
                match order(pending.remove(i)) {
                    Err(e) => Err(e),
                    Ok(rest) => Ok(seq![pending[i]] + rest),
                }
            },
        }
    }
}

/// The types known after the definitions, and the errors of the definitions:
/// a definition adds its type unless the language knows the name or an
/// earlier definition took it, in which case it gives a `DuplicateType` error.
/// Every such definition gives one, in order.
pub open spec fn check_types(known: Seq<Seq<char>>, defs: Seq<(Loc, Seq<char>)>) -> (
    Seq<Seq<char>>,
    Errs,
)
    decreases defs.len(),
{
    if defs.len() == 0 {
        (known, seq![])
    } else if known_of(defs[0].1) is Some || known.contains(defs[0].1) {
        let rest = check_types(known, defs.drop_first());
        (rest.0, seq![(defs[0].0, ErrV::DuplicateType(defs[0].1))] + rest.1)
    } else {
        check_types(known.push(defs[0].1), defs.drop_first())
    }
}

/// A `DuplicateSymbol` error for every assignment to a name already defined,
/// or assigned earlier, in order.
pub open spec fn check_names(known: Seq<Seq<char>>, assigns: Seq<AV>) -> Errs
    decreases assigns.len(),
{
    if assigns.len() == 0 {
        seq![]
    } else if known.contains(assigns[0].2) {
        seq![(assigns[0].1, ErrV::DuplicateSymbol(assigns[0].2))] + check_names(
            known,
            assigns.drop_first(),
        )
    } else {
        check_names(known.push(assigns[0].2), assigns.drop_first())
    }
}

/// A checked global assignment.
pub type TAV = (Loc, Seq<char>, TEV);

/// The checked assignments, in order, each seeing the globals before it; and
/// the context after them.
pub open spec fn check_globals(ctx: Ctx, ordered: Seq<AV>) -> Result<(Seq<TAV>, Ctx), Errs>
    decreases ordered.len(),
{
    if ordered.len() == 0 {
        Ok((seq![], ctx))
    } else {
        let a = ordered[0];
        match check_expr(ctx, seq![], a.3) {
            Err(e) => Err(e),
            Ok(t) => match check_globals(
                Ctx { globals: ctx.globals.push((a.2, tev_type(t))), ..ctx },
                ordered.drop_first(),
            ) {
                Err(e) => Err(e),
                Ok((rest, c2)) => Ok((seq![(a.1, a.2, t)] + rest, c2)),
            },
        }
    }
}

/// The checked top-level expressions, or the errors of the first that fails.
pub open spec fn check_exprs(ctx: Ctx, es: Seq<EV>) -> Result<Seq<TEV>, Errs>
    decreases es.len(),
{
    if es.len() == 0 {
        Ok(seq![])
    } else {
        match check_expr(ctx, seq![], es[0]) {
            Err(e) => Err(e),
            Ok(t) => match check_exprs(ctx, es.drop_first()) {
                Err(e) => Err(e),
                Ok(rest) => Ok(seq![t] + rest),
            },
        }
    }
}

/// A checked module: all the types known, the global assignments in the
/// order they run, and the expressions.
pub ghost struct PackageV {
    pub types: Seq<Seq<char>>,
    pub assignments: Seq<TAV>,
    pub exprs: Seq<TEV>,
}

pub open spec fn names_of(l: Seq<(Seq<char>, crate::types::TypeV)>) -> Seq<Seq<char>> {
    l.map_values(|b: (Seq<char>, crate::types::TypeV)| b.0)
}

/// Checks a module against what is already known: the types and the global
/// bindings of earlier modules. Duplicate definitions are all reported
/// together, those of types first; then the assignments are ordered and
/// checked, then the expressions.
pub open spec fn check_module(
    types: Seq<Seq<char>>,
    globals: Seq<(Seq<char>, crate::types::TypeV)>,
    m: ModuleV,
) -> Result<PackageV, Errs> {
    let (all_types, type_errors) = check_types(types, m.types);
    let name_errors = check_names(names_of(globals), m.assignments);
    if type_errors.len() > 0 || name_errors.len() > 0 {
        Err(type_errors + name_errors)
    } else {
        match order(m.assignments) {
            Err(e) => Err(e),
            Ok(ord) => match check_globals(Ctx { globals, types: all_types }, ord) {
                Err(e) => Err(e),
                Ok((tas, ctx2)) => match check_exprs(ctx2, m.exprs) {
                    Err(e) => Err(e),
                    Ok(tes) => Ok(PackageV { types: all_types, assignments: tas, exprs: tes }),
                },
            },
        }
    }
}

/// Evaluates the global assignments in order, binding each; the globals
/// bound so far are kept when one fails.
pub open spec fn run_assignments(g: VBindings, tas: Seq<TAV>, last: ValueV) -> (
    Result<ValueV, Errs>,
    VBindings,
)
    decreases tas.len(),
{
    if tas.len() == 0 {
        (Ok(last), g)
    } else {
        match eval(g, seq![], tas[0].2) {
            Err(e) => (Err(e), g),
            Ok(v) => run_assignments(g.push((tas[0].1, v)), tas.drop_first(), v),
        }
    }
}

/// Evaluates the expressions in order: the value of the last one.
pub open spec fn run_exprs(g: VBindings, tes: Seq<TEV>, last: ValueV) -> Result<ValueV, Errs>
    decreases tes.len(),
{
    if tes.len() == 0 {
        Ok(last)
    } else {
        match eval(g, seq![], tes[0]) {
            Err(e) => Err(e),
            Ok(v) => run_exprs(g, tes.drop_first(), v),
        }
    }
}

/// Evaluates a package: the value of the last assignment or expression
/// (`None` when there is none), and the globals afterwards.
pub open spec fn interpret(g: VBindings, p: PackageV) -> (Result<ValueV, Errs>, VBindings) {
    let (r, g2) = run_assignments(g, p.assignments, ValueV::Unit);
    match r {
        Err(e) => (Err(e), g2),
        Ok(v) => (run_exprs(g2, p.exprs, v), g2),
    }
}

/// The view of a top-level assignment.
pub open spec fn av_of(a: TLAssignment) -> AV {
    (a.visibility, a.loc, a.assignment.symbol@, a.assignment.expr@)
}

pub open spec fn avs(l: Seq<TLAssignment>) -> Seq<AV> {
    l.map_values(|a: TLAssignment| av_of(a))
}

/// Whether `s` is used in `e` where no local of a block hides it.
pub fn occurs_expr(e: &Expression, s: &Symbol) -> (r: bool)
    ensures
        r == occurs(e@, s@),
    decreases e,
{
    match &e.expr {
        Expr::LitInteger(_) => false,
        Expr::TSymbol(_) => false,
        Expr::Symbol(x) => x.same(s),
        Expr::Binary(_, a, b) => occurs_expr(a, s) || occurs_expr(b, s),
        Expr::Conditional(c, a, b) => occurs_expr(c, s) || occurs_expr(a, s) || occurs_expr(b, s),
        Expr::Then(a, b) => occurs_expr(a, s) || occurs_expr(b, s),
        Expr::Block(v) => occurs_block(v, s),
    }
}

fn occurs_block(v: &Vec<BStmt>, s: &Symbol) -> (r: bool)
    ensures
        r == occurs_stmts(stmts_view(v@), s@),
    decreases v,
{
    let ghost ss = stmts_view(v@);
    proof {
        lemma_stmts_view(v@);
        assert(ss.subrange(0, ss.len() as int) =~= ss);
    }
    let mut i: usize = 0;
    while i < v.len()
        invariant
            i <= v@.len(),
            ss == stmts_view(v@),
            ss.len() == v@.len(),
            forall|j: int| 0 <= j < v@.len() ==> #[trigger] ss[j] == stmt_view(v@[j]),
            occurs_stmts(ss, s@) == occurs_stmts(ss.subrange(i as int, ss.len() as int), s@),
        decreases v@.len() - i,
    {
        let ghost rest = ss.subrange(i as int, ss.len() as int);
        assert(rest[0] == ss[i as int]);
        assert(rest.drop_first() =~= ss.subrange(i + 1, ss.len() as int));
        match &v[i] {
            BStmt::Assignment(_, a) => {
                if occurs_expr(&a.expr, s) {
                    return true;
                }
                if a.symbol.same(s) {
                    return false;
                }
            },
            BStmt::Expr(x) => {
                if occurs_expr(x, s) {
                    return true;
                }
            },
        }
        i = i + 1;
    }
    false
}

/// Whether the assignment at `k` uses none of the pending ones.
fn ready_exec(assigns: &Vec<TLAssignment>, pending: &Vec<usize>, k: usize) -> (r: bool)
    requires
        k < assigns@.len(),
        forall|j: int| 0 <= j < pending@.len() ==> pending@[j] < assigns@.len(),
    ensures
        r == ready(avs(assigns@)[k as int], pending_view(assigns@, pending@)),
{
    let ghost pv = pending_view(assigns@, pending@);
    let mut j: usize = 0;
    while j < pending.len()
        invariant
            j <= pending@.len(),
            k < assigns@.len(),
            pv == pending_view(assigns@, pending@),
            forall|m: int| 0 <= m < pending@.len() ==> pending@[m] < assigns@.len(),
            forall|m: int| 0 <= m < j ==> !occurs(avs(assigns@)[k as int].3, #[trigger] pv[m].2),
        decreases pending@.len() - j,
    {
        let p = pending[j];
        if occurs_expr(&assigns[k].assignment.expr, &assigns[p].assignment.symbol) {
            assert(pv[j as int].2 == assigns@[p as int].assignment.symbol@);
            return false;
        }
        assert(pv[j as int].2 == assigns@[p as int].assignment.symbol@);
        j = j + 1;
    }
    true
}

/// The assignments at the given positions.
pub open spec fn pending_view(assigns: Seq<TLAssignment>, idx: Seq<usize>) -> Seq<AV> {
    idx.map_values(|k: usize| av_of(assigns[k as int]))
}

pub open spec fn prepend_avs(p: Seq<AV>, r: Result<Seq<AV>, Errs>) -> Result<Seq<AV>, Errs> {
    match r {
        Ok(x) => Ok(p + x),
        Err(e) => Err(e),
    }
}

/// The positions of the assignments in the order they are checked.
pub fn order_assignments(assigns: &Vec<TLAssignment>) -> (r: Result<Vec<usize>, ErrorVec>)
    ensures
        match order(avs(assigns@)) {
            Ok(o) => r matches Ok(idx) && (forall|k: int|
                0 <= k < idx@.len() ==> idx@[k] < assigns@.len()) && pending_view(assigns@, idx@)
                == o,
            Err(es) => r matches Err(x) && errs_view(x@) == es,
        },
{
    let n = assigns.len();
    let mut pending: Vec<usize> = Vec::new();
    let mut i: usize = 0;
    while i < n
        invariant
            i <= n,
            n == assigns@.len(),
            pending@.len() == i,
            forall|k: int| 0 <= k < i ==> pending@[k] == k,
        decreases n - i,
    {
        pending.push(i);
        i = i + 1;
    }
    assert(pending_view(assigns@, pending@) =~= avs(assigns@));
    let mut out: Vec<usize> = Vec::new();
    assert(pending_view(assigns@, out@) =~= Seq::<AV>::empty());
    assert(prepend_avs(seq![], order(avs(assigns@))) == order(avs(assigns@))) by {
        match order(avs(assigns@)) {
            Ok(x) => {
                assert(Seq::<AV>::empty() + x =~= x);
            },
            Err(_) => {},
        }
    }
    while pending.len() > 0
        invariant
            n == assigns@.len(),
            forall|k: int| 0 <= k < pending@.len() ==> pending@[k] < n,
            forall|k: int| 0 <= k < out@.len() ==> out@[k] < n,
            order(avs(assigns@)) == prepend_avs(
                pending_view(assigns@, out@),
                order(pending_view(assigns@, pending@)),
            ),
        decreases pending@.len(),
    {
        let ghost pv = pending_view(assigns@, pending@);
        let mut j: usize = 0;
        let mut found = false;
        while !found && j < pending.len()
            invariant
                n == assigns@.len(),
                j <= pending@.len(),
                pv == pending_view(assigns@, pending@),
                forall|k: int| 0 <= k < pending@.len() ==> pending@[k] < n,
                first_ready(pv, 0) == if found {
                    Some(j as int)
                } else {
                    first_ready(pv, j as int)
                },
                found ==> j < pending@.len(),
            decreases pending@.len() - j, if found {
                0int
            } else {
                1int
            },
        {
            if ready_exec(assigns, &pending, pending[j]) {
                found = true;
            } else {
                j = j + 1;
            }
        }
        if !found {
            assert(first_ready(pv, pending@.len() as int) is None);
            let a = &assigns[pending[0]];
            let r = a.loc.err(Error::CircularDefinition(a.assignment.symbol.duplicate()));
            assert(errs_view(r->Err_0@) =~= seq![(pv[0].1, ErrV::CircularDefinition(pv[0].2))]);
            assert(pv.len() > 0);
            assert(order(pv) == Err::<Seq<AV>, Errs>(seq![(pv[0].1, ErrV::CircularDefinition(pv[0].2))]));
            return r;
        }
        proof {
            lemma_first_ready_range(pv, 0);
        }
        let ghost before = pending_view(assigns@, out@);
        let ghost x = pv[j as int];
        out.push(pending[j]);
        pending.remove(j);
        proof {
            assert(pending_view(assigns@, out@) =~= before.push(x));
            assert(pending_view(assigns@, pending@) =~= pv.remove(j as int));
            match order(pv.remove(j as int)) {
                Ok(rest) => {
                    assert(before + (seq![x] + rest) =~= before.push(x) + rest);
                },
                Err(_) => {},
            }
        }
    }
    proof {
        assert(pending_view(assigns@, pending@) =~= Seq::<AV>::empty());
        assert(pending_view(assigns@, out@) + seq![] =~= pending_view(assigns@, out@));
    }
    Ok(out)
}

pub open spec fn defs_view(d: Seq<TypeDefinition>) -> Seq<(Loc, Seq<char>)> {
    d.map_values(|t: TypeDefinition| (t.loc, t.symbol@))
}

/// The types known after the definitions, and an error for every definition
/// of a type that is known already, in order.
pub fn check_type_defs(known: &Vec<TSymbol>, defs: &Vec<TypeDefinition>) -> (r: (Vec<TSymbol>, Errors))
    ensures
        tsymbols_view(r.0@) == check_types(tsymbols_view(known@), defs_view(defs@)).0,
        errs_view(r.1@) == check_types(tsymbols_view(known@), defs_view(defs@)).1,
        errors_wf(r.1),
{
    let ghost dv = defs_view(defs@);
    let ghost k0 = tsymbols_view(known@);
    let mut acc: Vec<TSymbol> = Vec::new();
    let mut i: usize = 0;
    while i < known.len()
        invariant
            i <= known@.len(),
            tsymbols_view(acc@) == tsymbols_view(known@).subrange(0, i as int),
        decreases known@.len() - i,
    {
        let x = known[i].duplicate();
        let ghost before = acc@;
        acc.push(x);
        assert(acc@ == before.push(x));
        assert(tsymbols_view(acc@) =~= tsymbols_view(before).push(x@));
        assert(tsymbols_view(acc@) =~= tsymbols_view(known@).subrange(0, i + 1));
        i = i + 1;
    }
    assert(tsymbols_view(known@).subrange(0, i as int) =~= tsymbols_view(known@));
    assert(dv.subrange(0, dv.len() as int) =~= dv);
    let mut errors = Errors::new();
    assert(errs_view(errors@) =~= Seq::<(Loc, ErrV)>::empty());
    assert(Seq::<(Loc, ErrV)>::empty() + check_types(k0, dv).1 =~= check_types(k0, dv).1);
    let mut i: usize = 0;
    while i < defs.len()
        invariant
            i <= defs@.len(),
            dv == defs_view(defs@),
            k0 == tsymbols_view(known@),
            errors_wf(errors),
            check_types(k0, dv).0 == check_types(
                tsymbols_view(acc@),
                dv.subrange(i as int, dv.len() as int),
            ).0,
            check_types(k0, dv).1 == errs_view(errors@) + check_types(
                tsymbols_view(acc@),
                dv.subrange(i as int, dv.len() as int),
            ).1,
        decreases defs@.len() - i,
    {
        let ghost rest = dv.subrange(i as int, dv.len() as int);
        assert(rest[0] == dv[i as int]);
        assert(rest.drop_first() =~= dv.subrange(i + 1, dv.len() as int));
        let d = &defs[i];
        if d.symbol.known().is_some() || has_type_symbol(&acc, &d.symbol) {
            let ghost before = errors@;
            let ghost tail = check_types(tsymbols_view(acc@), rest.drop_first()).1;
            let err = Error::DuplicateType(d.symbol.duplicate());
            errors.add(&d.loc, err);
            proof {
                assert(errors@ == before.push((d.loc, err)));
                assert(errs_view(errors@) =~= errs_view(before).push((d.loc, ErrV::DuplicateType(d.symbol@))));
                assert(errs_view(before) + (seq![(d.loc, ErrV::DuplicateType(d.symbol@))] + tail) =~= errs_view(
                    errors@,
                ) + tail);
            }
        } else {
            let ghost before = tsymbols_view(acc@);
            acc.push(d.symbol.duplicate());
            assert(tsymbols_view(acc@) =~= before.push(d.symbol@));
        }
        i = i + 1;
    }
    proof {
        assert(dv.subrange(i as int, dv.len() as int) =~= Seq::<(Loc, Seq<char>)>::empty());
        assert(errs_view(errors@) + Seq::<(Loc, ErrV)>::empty() =~= errs_view(errors@));
    }
    (acc, errors)
}

pub open spec fn symbols_view(l: Seq<Symbol>) -> Seq<Seq<char>> {
    l.map_values(|s: Symbol| s@)
}

fn has_symbol(l: &Vec<Symbol>, s: &Symbol) -> (r: bool)
    ensures
        r == symbols_view(l@).contains(s@),
{
    let mut i: usize = 0;
    while i < l.len()
        invariant
            i <= l@.len(),
            forall|j: int| 0 <= j < i ==> l@[j]@ != s@,
        decreases l@.len() - i,
    {
        if l[i].same(s) {
            assert(symbols_view(l@)[i as int] == s@);
            return true;
        }
        i = i + 1;
    }
    proof {
        if symbols_view(l@).contains(s@) {
            let j = choose|j: int| 0 <= j < symbols_view(l@).len() && symbols_view(l@)[j] == s@;
            assert(l@[j]@ == s@);
        }
    }
    false
}

/// An error for every assignment to a name already defined, or assigned
/// earlier, in order.
pub fn check_assignment_names(globals: &Vec<Binding>, assigns: &Vec<TLAssignment>) -> (r: Errors)
    ensures
        errs_view(r@) == check_names(names_of(bindings_view(globals@)), avs(assigns@)),
        errors_wf(r),
{
    let ghost av = avs(assigns@);
    let ghost k0 = names_of(bindings_view(globals@));
    let mut known: Vec<Symbol> = Vec::new();
    let mut i: usize = 0;
    while i < globals.len()
        invariant
            i <= globals@.len(),
            symbols_view(known@) == names_of(bindings_view(globals@)).subrange(0, i as int),
        decreases globals@.len() - i,
    {
        let x = globals[i].symbol.duplicate();
        let ghost before = known@;
        known.push(x);
        assert(known@ == before.push(x));
        assert(symbols_view(known@) =~= symbols_view(before).push(x@));
        assert(symbols_view(known@) =~= names_of(bindings_view(globals@)).subrange(0, i + 1));
        i = i + 1;
    }
    assert(names_of(bindings_view(globals@)).subrange(0, i as int) =~= names_of(bindings_view(globals@)));
    assert(av.subrange(0, av.len() as int) =~= av);
    let mut errors = Errors::new();
    assert(errs_view(errors@) =~= Seq::<(Loc, ErrV)>::empty());
    assert(Seq::<(Loc, ErrV)>::empty() + check_names(k0, av) =~= check_names(k0, av));
    let mut i: usize = 0;
    while i < assigns.len()
        invariant
            i <= assigns@.len(),
            av == avs(assigns@),
            k0 == names_of(bindings_view(globals@)),
            errors_wf(errors),
            check_names(k0, av) == errs_view(errors@) + check_names(
                symbols_view(known@),
                av.subrange(i as int, av.len() as int),
            ),
        decreases assigns@.len() - i,
    {
        let ghost rest = av.subrange(i as int, av.len() as int);
        assert(rest[0] == av[i as int]);
        assert(rest.drop_first() =~= av.subrange(i + 1, av.len() as int));
        let a = &assigns[i];
        if has_symbol(&known, &a.assignment.symbol) {
            let ghost before = errors@;
            let ghost tail = check_names(symbols_view(known@), rest.drop_first());
            let err = Error::DuplicateSymbol(a.assignment.symbol.duplicate());
            errors.add(&a.loc, err);
            proof {
                assert(errors@ == before.push((a.loc, err)));
                assert(errs_view(errors@) =~= errs_view(before).push(
                    (a.loc, ErrV::DuplicateSymbol(a.assignment.symbol@)),
                ));
                assert(errs_view(before) + (seq![(a.loc, ErrV::DuplicateSymbol(a.assignment.symbol@))]
                    + tail) =~= errs_view(errors@) + tail);
            }
        } else {
            let ghost before = symbols_view(known@);
            known.push(a.assignment.symbol.duplicate());
            assert(symbols_view(known@) =~= before.push(a.assignment.symbol@));
        }
        i = i + 1;
    }
    proof {
        assert(av.subrange(i as int, av.len() as int) =~= Seq::<AV>::empty());
        assert(errs_view(errors@) + Seq::<(Loc, ErrV)>::empty() =~= errs_view(errors@));
    }
    errors
}

/// A checked global assignment.
#[derive(Debug, PartialEq, Eq)]
pub struct TAssignment {
    pub loc: Loc,
    pub symbol: Symbol,
    pub expr: TExpr,
}

pub open spec fn tas_view(l: Seq<TAssignment>) -> Seq<TAV> {
    l.map_values(|a: TAssignment| (a.loc, a.symbol@, a.expr@))
}

pub open spec fn texprs_view(l: Seq<TExpr>) -> Seq<TEV> {
    l.map_values(|e: TExpr| e@)
}

/// Checks the global assignments at the positions `ord`, in that order; the
/// checked assignments and the global bindings after them.
pub fn check_global_assignments(
    globals: &Vec<Binding>,
    types: &Vec<TSymbol>,
    assigns: &Vec<TLAssignment>,
    ord: &Vec<usize>,
) -> (r: Result<(Vec<TAssignment>, Vec<Binding>), ErrorVec>)
    requires
        forall|k: int| 0 <= k < ord@.len() ==> ord@[k] < assigns@.len(),
    ensures
        match check_globals(ctx_of(globals@, types@), pending_view(assigns@, ord@)) {
            Ok((tas, c2)) => r matches Ok((v, g2)) && tas_view(v@) == tas && ctx_of(g2@, types@)
                == c2,
            Err(es) => r matches Err(x) && errs_view(x@) == es,
        },
{
    let ghost ov = pending_view(assigns@, ord@);
    let mut g = copy_bindings(globals);
    let mut out: Vec<TAssignment> = Vec::new();
    let mut i: usize = 0;
    assert(ov.subrange(0, ov.len() as int) =~= ov);
    assert(tas_view(out@) =~= Seq::<TAV>::empty());
    assert(ctx_of(g@, types@) == ctx_of(globals@, types@));
    assert(prefix_globals(seq![], check_globals(ctx_of(globals@, types@), ov)) == check_globals(
        ctx_of(globals@, types@),
        ov,
    )) by {
        match check_globals(ctx_of(globals@, types@), ov) {
            Ok((x, c)) => {
                assert(Seq::<TAV>::empty() + x =~= x);
            },
            Err(_) => {},
        }
    }
    while i < ord.len()
        invariant
            i <= ord@.len(),
            ov == pending_view(assigns@, ord@),
            forall|k: int| 0 <= k < ord@.len() ==> ord@[k] < assigns@.len(),
            check_globals(ctx_of(globals@, types@), ov) == prefix_globals(
                tas_view(out@),
                check_globals(ctx_of(g@, types@), ov.subrange(i as int, ov.len() as int)),
            ),
        decreases ord@.len() - i,
    {
        let ghost rest = ov.subrange(i as int, ov.len() as int);
        assert(rest[0] == ov[i as int]);
        assert(rest.drop_first() =~= ov.subrange(i + 1, ov.len() as int));
        let a = &assigns[ord[i]];
        let empty: Vec<Binding> = Vec::new();
        assert(bindings_view(empty@) =~= seq![]);
        match check_expression(&g, types, &empty, &a.assignment.expr) {
            Err(x) => {
                return Err(x);
            },
            Ok(t) => {
                let ghost gv = bindings_view(g@);
                let ghost tv = t@;
                let ghost before = tas_view(out@);
                let ty = t.type_of();
                g.push(Binding { symbol: a.assignment.symbol.duplicate(), tipo: ty });
                assert(bindings_view(g@) =~= gv.push((a.assignment.symbol@, tev_type(tv))));
                out.push(TAssignment { loc: a.loc, symbol: a.assignment.symbol.duplicate(), expr: t });
                assert(tas_view(out@) =~= before.push((a.loc, a.assignment.symbol@, tv)));
                proof {
                    match check_globals(ctx_of(g@, types@), rest.drop_first()) {
                        Ok((x, c)) => {
                            assert(before + (seq![(a.loc, a.assignment.symbol@, tv)] + x) =~= before.push(
                                (a.loc, a.assignment.symbol@, tv),
                            ) + x);
                        },
                        Err(_) => {},
                    }
                }
            },
        }
        i = i + 1;
    }
    proof {
        assert(tas_view(out@) + seq![] =~= tas_view(out@));
    }
    Ok((out, g))
}

pub open spec fn prefix_globals(p: Seq<TAV>, r: Result<(Seq<TAV>, Ctx), Errs>) -> Result<
    (Seq<TAV>, Ctx),
    Errs,
> {
    match r {
        Ok((x, c)) => Ok((p + x, c)),
        Err(e) => Err(e),
    }
}

pub open spec fn exprs_view(l: Seq<Expression>) -> Seq<EV> {
    l.map_values(|e: Expression| e@)
}

pub open spec fn prefix_texprs(p: Seq<TEV>, r: Result<Seq<TEV>, Errs>) -> Result<Seq<TEV>, Errs> {
    match r {
        Ok(x) => Ok(p + x),
        Err(e) => Err(e),
    }
}

/// Checks the top-level expressions in order.
pub fn check_expressions(globals: &Vec<Binding>, types: &Vec<TSymbol>, es: &Vec<Expression>) -> (r: Result<
    Vec<TExpr>,
    ErrorVec,
>)
    ensures
        match check_exprs(ctx_of(globals@, types@), exprs_view(es@)) {
            Ok(ts) => r matches Ok(v) && texprs_view(v@) == ts,
            Err(e) => r matches Err(x) && errs_view(x@) == e,
        },
{
    let ghost ev = exprs_view(es@);
    let ghost ctx = ctx_of(globals@, types@);
    let mut out: Vec<TExpr> = Vec::new();
    let mut i: usize = 0;
    assert(ev.subrange(0, ev.len() as int) =~= ev);
    assert(texprs_view(out@) =~= Seq::<TEV>::empty());
    assert(prefix_texprs(seq![], check_exprs(ctx, ev)) == check_exprs(ctx, ev)) by {
        match check_exprs(ctx, ev) {
            Ok(x) => {
                assert(Seq::<TEV>::empty() + x =~= x);
            },
            Err(_) => {},
        }
    }
    let empty: Vec<Binding> = Vec::new();
    assert(bindings_view(empty@) =~= seq![]);
    while i < es.len()
        invariant
            i <= es@.len(),
            ev == exprs_view(es@),
            ctx == ctx_of(globals@, types@),
            bindings_view(empty@) == Seq::<(Seq<char>, crate::types::TypeV)>::empty(),
            check_exprs(ctx, ev) == prefix_texprs(
                texprs_view(out@),
                check_exprs(ctx, ev.subrange(i as int, ev.len() as int)),
            ),
        decreases es@.len() - i,
    {
        let ghost rest = ev.subrange(i as int, ev.len() as int);
        assert(rest[0] == ev[i as int]);
        assert(rest.drop_first() =~= ev.subrange(i + 1, ev.len() as int));
        match check_expression(globals, types, &empty, &es[i]) {
            Err(x) => {
                return Err(x);
            },
            Ok(t) => {
                let ghost before = texprs_view(out@);
                let ghost tv = t@;
                out.push(t);
                assert(texprs_view(out@) =~= before.push(tv));
                proof {
                    match check_exprs(ctx, rest.drop_first()) {
                        Ok(x) => {
                            assert(before + (seq![tv] + x) =~= before.push(tv) + x);
                        },
                        Err(_) => {},
                    }
                }
            },
        }
        i = i + 1;
    }
    proof {
        assert(texprs_view(out@) + seq![] =~= texprs_view(out@));
    }
    Ok(out)
}

/// A checked module.
#[derive(Debug)]
pub struct Package {
    pub types: Vec<TSymbol>,
    pub assignments: Vec<TAssignment>,
    pub exprs: Vec<TExpr>,
}

pub open spec fn package_view(p: Package) -> PackageV {
    PackageV {
        types: tsymbols_view(p.types@),
        assignments: tas_view(p.assignments@),
        exprs: texprs_view(p.exprs@),
    }
}

/// Checks a module against the types and global bindings known before it.
pub fn check_package(types: &Vec<TSymbol>, globals: &Vec<Binding>, m: &Module) -> (r: Result<
    Package,
    ErrorVec,
>)
    ensures
        match check_module(tsymbols_view(types@), bindings_view(globals@), module_view(*m)) {
            Ok(p) => r matches Ok(x) && package_view(x) == p,
            Err(es) => r matches Err(x) && errs_view(x@) == es,
        },
{
    assert(defs_view(m.types@) =~= module_view(*m).types);
    assert(avs(m.assignments@) =~= module_view(*m).assignments);
    assert(exprs_view(m.expressions@) =~= module_view(*m).exprs);
    let (all_types, mut errors) = check_type_defs(types, &m.types);
    let name_errors = check_assignment_names(globals, &m.assignments);
    let ghost te = errors@;
    let ghost ne = name_errors@;
    errors.append_result(name_errors.to_unit_result());
    assert(errors@ == te + ne);
    proof {
        lemma_errs_view_add(te, ne);
    }
    match errors.to_result(()) {
        Err(x) => {
            return Err(x);
        },
        Ok(()) => {},
    }
    let ord = match order_assignments(&m.assignments) {
        Err(x) => {
            return Err(x);
        },
        Ok(o) => o,
    };
    assert(ctx_of(globals@, all_types@) == Ctx { globals: bindings_view(globals@), types: tsymbols_view(all_types@) });
    let (tas, g2) = match check_global_assignments(globals, &all_types, &m.assignments, &ord) {
        Err(x) => {
            return Err(x);
        },
        Ok(p) => p,
    };
    let tes = match check_expressions(&g2, &all_types, &m.expressions) {
        Err(x) => {
            return Err(x);
        },
        Ok(t) => t,
    };
    Ok(Package { types: all_types, assignments: tas, exprs: tes })
}

/// No name occurs twice.
pub open spec fn distinct_names<T>(l: Seq<(Seq<char>, T)>) -> bool {
    forall|i: int, j: int| 0 <= i < j < l.len() ==> #[trigger] l[i].0 != #[trigger] l[j].0
}

/// The bindings that checked global assignments add.
pub open spec fn new_symbols(tas: Seq<TAV>) -> Seq<(Seq<char>, crate::types::TypeV)> {
    tas.map_values(|a: TAV| (a.1, tev_type(a.2)))
}

/// `t` is what checking some expression in `ctx`, outside any block, gives.
pub open spec fn checked_in(ctx: Ctx, t: TEV) -> bool {
    exists|e: EV| check_expr(ctx, seq![], e) == Ok::<TEV, Errs>(t)
}

/// Each global assignment of the package was checked with the globals known
/// before the package and those assigned before it; each expression with all
/// of them; no two globals share a name, nor one of the package a name known
/// before it.
pub open spec fn package_ok(globals: Seq<(Seq<char>, crate::types::TypeV)>, p: PackageV) -> bool {
    &&& distinct_names(new_symbols(p.assignments))
    &&& forall|k: int|
        0 <= k < p.assignments.len() ==> !(#[trigger] names_of(globals).contains(
            p.assignments[k].1,
        ))
    &&& forall|k: int|
        0 <= k < p.assignments.len() ==> checked_in(
            Ctx { globals: globals + new_symbols(p.assignments.take(k)), types: p.types },
            #[trigger] p.assignments[k].2,
        )
    &&& forall|j: int|
        0 <= j < p.exprs.len() ==> checked_in(
            Ctx { globals: globals + new_symbols(p.assignments), types: p.types },
            #[trigger] p.exprs[j],
        )
}

proof fn lemma_check_names(known: Seq<Seq<char>>, a: Seq<AV>)
    requires
        check_names(known, a).len() == 0,
    ensures
        forall|i: int, j: int| 0 <= i < j < a.len() ==> #[trigger] a[i].2 != #[trigger] a[j].2,
        forall|i: int| 0 <= i < a.len() ==> !known.contains(#[trigger] a[i].2),
    decreases a.len(),
{
    if a.len() > 0 {
        lemma_check_names(known.push(a[0].2), a.drop_first());
        assert forall|i: int, j: int| 0 <= i < j < a.len() implies #[trigger] a[i].2 != #[trigger] a[j].2 by {
            if i == 0 {
                assert(a[j].2 == a.drop_first()[j - 1].2);
                assert(known.push(a[0].2)[known.len() as int] == a[0].2);
                assert(known.push(a[0].2).contains(a[0].2));
            } else {
                assert(a[i].2 == a.drop_first()[i - 1].2);
                assert(a[j].2 == a.drop_first()[j - 1].2);
            }
        }
        assert forall|i: int| 0 <= i < a.len() implies !known.contains(#[trigger] a[i].2) by {
            if i > 0 {
                assert(a[i].2 == a.drop_first()[i - 1].2);
                if known.contains(a[i].2) {
                    let k = choose|k: int| 0 <= k < known.len() && known[k] == a[i].2;
                    assert(known.push(a[0].2)[k] == a[i].2);
                }
            }
        }
    }
}

proof fn lemma_order(p: Seq<AV>)
    requires
        forall|i: int, j: int| 0 <= i < j < p.len() ==> #[trigger] p[i].2 != #[trigger] p[j].2,
        order(p) is Ok,
    ensures
        order(p)->Ok_0.len() == p.len(),
        forall|i: int, j: int|
            0 <= i < j < order(p)->Ok_0.len() ==> #[trigger] order(p)->Ok_0[i].2
                != #[trigger] order(p)->Ok_0[j].2,
        forall|i: int| 0 <= i < order(p)->Ok_0.len() ==> p.contains(#[trigger] order(p)->Ok_0[i]),
    decreases p.len(),
{
    if p.len() > 0 {
        lemma_first_ready_range(p, 0);
        let k = first_ready(p, 0)->Some_0;
        let q = p.remove(k);
        assert forall|i: int, j: int| 0 <= i < j < q.len() implies #[trigger] q[i].2 != #[trigger] q[j].2 by {
            let ii = if i < k { i } else { i + 1 };
            let jj = if j < k { j } else { j + 1 };
            assert(q[i] == p[ii]);
            assert(q[j] == p[jj]);
        }
        lemma_order(q);
        let rest = order(q)->Ok_0;
        let o = order(p)->Ok_0;
        assert(o == seq![p[k]] + rest);
        assert forall|i: int| 0 <= i < o.len() implies p.contains(#[trigger] o[i]) by {
            if i == 0 {
                assert(p[k] == o[0]);
            } else {
                assert(o[i] == rest[i - 1]);
                assert(q.contains(rest[i - 1]));
                let m = choose|m: int| 0 <= m < q.len() && q[m] == rest[i - 1];
                let mm = if m < k { m } else { m + 1 };
                assert(p[mm] == q[m]);
            }
        }
        assert forall|i: int, j: int| 0 <= i < j < o.len() implies #[trigger] o[i].2 != #[trigger] o[j].2 by {
            if i == 0 {
                assert(o[j] == rest[j - 1]);
                assert(q.contains(rest[j - 1]));
                let m = choose|m: int| 0 <= m < q.len() && q[m] == rest[j - 1];
                let mm = if m < k { m } else { m + 1 };
                assert(p[mm] == q[m]);
                assert(mm != k);
            } else {
                assert(o[i] == rest[i - 1]);
                assert(o[j] == rest[j - 1]);
            }
        }
    }
}

proof fn lemma_check_globals(ctx: Ctx, o: Seq<AV>)
    requires
        check_globals(ctx, o) is Ok,
    ensures
        ({
            let (tas, c2) = check_globals(ctx, o)->Ok_0;
            &&& tas.len() == o.len()
            &&& forall|k: int| 0 <= k < o.len() ==> (#[trigger] tas[k]).1 == o[k].2
            &&& c2 == Ctx { globals: ctx.globals + new_symbols(tas), types: ctx.types }
            &&& forall|k: int|
                0 <= k < tas.len() ==> check_expr(
                    Ctx { globals: ctx.globals + new_symbols(tas.take(k)), types: ctx.types },
                    seq![],
                    o[k].3,
                ) == Ok::<TEV, Errs>(#[trigger] tas[k].2)
        }),
    decreases o.len(),
{
    let (tas, c2) = check_globals(ctx, o)->Ok_0;
    if o.len() == 0 {
        assert(ctx.globals + new_symbols(tas) =~= ctx.globals);
    } else {
        let a = o[0];
        let t = check_expr(ctx, seq![], a.3)->Ok_0;
        let ctx1 = Ctx { globals: ctx.globals.push((a.2, tev_type(t))), ..ctx };
        lemma_check_globals(ctx1, o.drop_first());
        let (rest, c3) = check_globals(ctx1, o.drop_first())->Ok_0;
        assert(tas == seq![(a.1, a.2, t)] + rest);
        assert(new_symbols(tas) =~= seq![(a.2, tev_type(t))] + new_symbols(rest));
        assert(ctx.globals + new_symbols(tas) =~= ctx1.globals + new_symbols(rest));
        assert forall|k: int| 0 <= k < o.len() implies (#[trigger] tas[k]).1 == o[k].2 by {
            if k > 0 {
                assert(tas[k] == rest[k - 1]);
            }
        }
        assert forall|k: int|
            0 <= k < tas.len() implies check_expr(
                Ctx { globals: ctx.globals + new_symbols(tas.take(k)), types: ctx.types },
                seq![],
                o[k].3,
            ) == Ok::<TEV, Errs>(#[trigger] tas[k].2) by {
            if k == 0 {
                assert(ctx.globals + new_symbols(tas.take(0)) =~= ctx.globals);
            } else {
                assert(tas[k] == rest[k - 1]);
                assert(o[k] == o.drop_first()[k - 1]);
                assert(new_symbols(tas.take(k)) =~= seq![(a.2, tev_type(t))] + new_symbols(
                    rest.take(k - 1),
                ));
                assert(ctx.globals + new_symbols(tas.take(k)) =~= ctx1.globals + new_symbols(
                    rest.take(k - 1),
                ));
            }
        }
    }
}

proof fn lemma_check_exprs(ctx: Ctx, es: Seq<EV>)
    requires
        check_exprs(ctx, es) is Ok,
    ensures
        forall|j: int|
            0 <= j < check_exprs(ctx, es)->Ok_0.len() ==> checked_in(
                ctx,
                #[trigger] check_exprs(ctx, es)->Ok_0[j],
            ),
    decreases es.len(),
{
    if es.len() > 0 {
        lemma_check_exprs(ctx, es.drop_first());
        let ts = check_exprs(ctx, es)->Ok_0;
        let rest = check_exprs(ctx, es.drop_first())->Ok_0;
        assert forall|j: int| 0 <= j < ts.len() implies checked_in(ctx, #[trigger] ts[j]) by {
            if j == 0 {
                assert(check_expr(ctx, seq![], es[0]) == Ok::<TEV, Errs>(ts[0]));
            } else {
                assert(ts[j] == rest[j - 1]);
            }
        }
    }
}

proof fn lemma_globals_ok(
    globals: Seq<(Seq<char>, crate::types::TypeV)>,
    assigns: Seq<AV>,
    ord: Seq<AV>,
    all_types: Seq<Seq<char>>,
    tas: Seq<TAV>,
)
    requires
        check_names(names_of(globals), assigns).len() == 0,
        order(assigns) == Ok::<Seq<AV>, Errs>(ord),
        check_globals(Ctx { globals, types: all_types }, ord) is Ok,
        tas == check_globals(Ctx { globals, types: all_types }, ord)->Ok_0.0,
    ensures
        distinct_names(new_symbols(tas)),
        forall|k: int| 0 <= k < tas.len() ==> !(#[trigger] names_of(globals).contains(tas[k].1)),
        forall|k: int|
            0 <= k < tas.len() ==> checked_in(
                Ctx { globals: globals + new_symbols(tas.take(k)), types: all_types },
                #[trigger] tas[k].2,
            ),
{
    lemma_check_names(names_of(globals), assigns);
    lemma_order(assigns);
    let ctx = Ctx { globals, types: all_types };
    lemma_check_globals(ctx, ord);
    assert forall|i: int, j: int|
        0 <= i < j < new_symbols(tas).len() implies #[trigger] new_symbols(tas)[i].0
        != #[trigger] new_symbols(tas)[j].0 by {
        assert(new_symbols(tas)[i].0 == tas[i].1);
        assert(new_symbols(tas)[j].0 == tas[j].1);
        assert(tas[i].1 == ord[i].2);
        assert(tas[j].1 == ord[j].2);
    }
    assert forall|k: int| 0 <= k < tas.len() implies !(#[trigger] names_of(globals).contains(
        tas[k].1,
    )) by {
        assert(tas[k].1 == ord[k].2);
        assert(assigns.contains(ord[k]));
        let q = choose|q: int| 0 <= q < assigns.len() && assigns[q] == ord[k];
        assert(!names_of(globals).contains(assigns[q].2));
    }
    assert forall|k: int| 0 <= k < tas.len() implies checked_in(
        Ctx { globals: globals + new_symbols(tas.take(k)), types: all_types },
        #[trigger] tas[k].2,
    ) by {
        assert(check_expr(
            Ctx { globals: globals + new_symbols(tas.take(k)), types: all_types },
            seq![],
            ord[k].3,
        ) == Ok::<TEV, Errs>(tas[k].2));
    }
}

/// A package that checks is fit to run: its globals are new and distinct, and
/// each part was checked with the globals it can see.
pub proof fn lemma_check_module_ok(
    types: Seq<Seq<char>>,
    globals: Seq<(Seq<char>, crate::types::TypeV)>,
    m: ModuleV,
)
    requires
        check_module(types, globals, m) is Ok,
    ensures
        package_ok(globals, check_module(types, globals, m)->Ok_0),
{
    let p = check_module(types, globals, m)->Ok_0;
    let all_types = check_types(types, m.types).0;
    let ord = order(m.assignments)->Ok_0;
    let ctx = Ctx { globals, types: all_types };
    let (tas, ctx2) = check_globals(ctx, ord)->Ok_0;
    lemma_globals_ok(globals, m.assignments, ord, all_types, tas);
    lemma_check_globals(ctx, ord);
    lemma_check_exprs(ctx2, m.exprs);
    assert(p.assignments == tas);
    assert(p.types == all_types);
    assert(p.exprs == check_exprs(ctx2, m.exprs)->Ok_0);
}


proof fn lemma_check_ignores(ctx: Ctx, l: Seq<(Seq<char>, crate::types::TypeV)>, e: EV, s: Seq<char>, t: crate::types::TypeV)
    requires
        !occurs(e, s) || lookup(l, s) is Some,
    ensures
        check_expr(ctx, l, e) == check_expr(Ctx { globals: ctx.globals.push((s, t)), ..ctx }, l, e),
    decreases e,
{
    let ctx2 = Ctx { globals: ctx.globals.push((s, t)), ..ctx };
    match e {
        EV::Sym(loc, x) => {
            if lookup(l, x) is None {
                lemma_lookup_push(ctx.globals, (s, t), x);
            }
        },
        EV::Binary(_, _, a, b) => {
            lemma_check_ignores(ctx, l, *a, s, t);
            lemma_check_ignores(ctx, l, *b, s, t);
        },
        EV::Cond(_, c, a, b) => {
            lemma_check_ignores(ctx, l, *c, s, t);
            lemma_check_ignores(ctx, l, *a, s, t);
            lemma_check_ignores(ctx, l, *b, s, t);
        },
        EV::Then(_, a, b) => {
            lemma_check_ignores(ctx, l, *a, s, t);
            lemma_check_ignores(ctx, l, *b, s, t);
        },
        EV::Block(_, ss) => {
            lemma_check_stmts_ignores(ctx, l, ss, s, t);
        },
        _ => {},
    }
}

proof fn lemma_check_stmts_ignores(
    ctx: Ctx,
    l: Seq<(Seq<char>, crate::types::TypeV)>,
    ss: Seq<SV>,
    s: Seq<char>,
    t: crate::types::TypeV,
)
    requires
        !occurs_stmts(ss, s) || lookup(l, s) is Some,
    ensures
        check_stmts(ctx, l, ss) == check_stmts(Ctx { globals: ctx.globals.push((s, t)), ..ctx }, l, ss),
    decreases ss,
{
    let ctx2 = Ctx { globals: ctx.globals.push((s, t)), ..ctx };
    if ss.len() > 0 {
        match ss[0] {
            SV::Assign(_, x, ex) => {
                lemma_check_ignores(ctx, l, ex, s, t);
                match check_expr(ctx, l, ex) {
                    Err(_) => {},
                    Ok(te) => {
                        let l2 = l.push((x, tev_type(te)));
                        lemma_lookup_push(l, (x, tev_type(te)), s);
                        lemma_check_stmts_ignores(ctx, l2, ss.drop_first(), s, t);
                    },
                }
            },
            SV::Expr(ex) => {
                lemma_check_ignores(ctx, l, ex, s, t);
                lemma_check_stmts_ignores(ctx, l, ss.drop_first(), s, t);
            },
        }
    }
}

/// A global that an expression does not use plays no part in checking it:
/// checking gives the same whether or not the global is defined, and with
/// whatever type. So an assignment that uses none of the pending ones can be
/// checked before them. Every part of an expression is looked at, the
/// condition of a conditional too.
pub proof fn law_unused_global_plays_no_part(ctx: Ctx, e: EV, s: Seq<char>, t: crate::types::TypeV)
    requires
        !occurs(e, s),
    ensures
        check_expr(ctx, seq![], e) == check_expr(Ctx { globals: ctx.globals.push((s, t)), ..ctx }, seq![], e),
{
    lemma_check_ignores(ctx, seq![], e, s, t);
}

/// A name used in a part of an expression is used in the expression.
pub proof fn law_occurs_in_parts(loc: Loc, op: BinaryOp, a: EV, b: EV, c: EV, s: Seq<char>)
    ensures
        occurs(EV::Sym(loc, s), s),
        occurs(c, s) || occurs(a, s) || occurs(b, s) ==> occurs(
            EV::Cond(loc, Box::new(c), Box::new(a), Box::new(b)),
            s,
        ),
        occurs(a, s) || occurs(b, s) ==> occurs(EV::Binary(loc, op, Box::new(a), Box::new(b)), s),
        occurs(a, s) || occurs(b, s) ==> occurs(EV::Then(loc, Box::new(a), Box::new(b)), s),
{
}


/// Evaluating the top-level expressions gives the value of the last one when
/// they all evaluate, the given value when there are none, and else the error
/// of the first that fails.
pub proof fn law_last_expression_value(g: VBindings, tes: Seq<TEV>, last: ValueV)
    ensures
        tes.len() == 0 ==> run_exprs(g, tes, last) == Ok::<ValueV, Errs>(last),
        tes.len() > 0 && (forall|k: int| 0 <= k < tes.len() ==> #[trigger] eval(g, seq![], tes[k]) is Ok)
            ==> run_exprs(g, tes, last) == eval(g, seq![], tes.last()),
        forall|k: int|
            0 <= k < tes.len() && eval(g, seq![], tes[k]) is Err && (forall|j: int|
                0 <= j < k ==> #[trigger] eval(g, seq![], tes[j]) is Ok) ==> run_exprs(g, tes, last)
                == #[trigger] eval(g, seq![], tes[k]),
    decreases tes.len(),
{
    if tes.len() > 0 {
        let rest = tes.drop_first();
        match eval(g, seq![], tes[0]) {
            Err(_) => {},
            Ok(v) => {
                law_last_expression_value(g, rest, v);
                if forall|k: int| 0 <= k < tes.len() ==> #[trigger] eval(g, seq![], tes[k]) is Ok {
                    assert forall|k: int| 0 <= k < rest.len() implies #[trigger] eval(g, seq![], rest[k]) is Ok by {
                        assert(rest[k] == tes[k + 1]);
                    }
                    if rest.len() > 0 {
                        assert(rest.last() == tes.last());
                    }
                }
                assert forall|k: int|
                    0 <= k < tes.len() && eval(g, seq![], tes[k]) is Err && (forall|j: int|
                        0 <= j < k ==> #[trigger] eval(g, seq![], tes[j]) is Ok) implies run_exprs(g, tes, last)
                    == #[trigger] eval(g, seq![], tes[k]) by {
                    assert(k > 0);
                    assert(rest[k - 1] == tes[k]);
                    assert forall|j: int| 0 <= j < k - 1 implies #[trigger] eval(g, seq![], rest[j]) is Ok by {
                        assert(rest[j] == tes[j + 1]);
                    }
                }
            },
        }
    }
}


/// Evaluating the global assignments binds each name to its value, in order,
/// and gives the value of the last; when one fails, those before it stay bound
/// and the result is its error.
pub proof fn law_assignments_bind_in_order(g: VBindings, tas: Seq<TAV>, last: ValueV)
    ensures
        tas.len() == 0 ==> run_assignments(g, tas, last) == (Ok::<ValueV, Errs>(last), g),
        tas.len() > 0 && eval(g, seq![], tas[0].2) is Ok ==> ({
            let v = eval(g, seq![], tas[0].2)->Ok_0;
            run_assignments(g, tas, last) == run_assignments(g.push((tas[0].1, v)), tas.drop_first(), v)
        }),
        tas.len() > 0 && eval(g, seq![], tas[0].2) is Err ==> run_assignments(g, tas, last) == (
            eval(g, seq![], tas[0].2),
            g,
        ),
        tas.len() == 1 && eval(g, seq![], tas[0].2) is Ok ==> run_assignments(g, tas, last) == (
            eval(g, seq![], tas[0].2),
            g.push((tas[0].1, eval(g, seq![], tas[0].2)->Ok_0)),
        ),
{
    if tas.len() == 1 && eval(g, seq![], tas[0].2) is Ok {
        let v = eval(g, seq![], tas[0].2)->Ok_0;
        assert(tas.drop_first() =~= Seq::<TAV>::empty());
        assert(run_assignments(g.push((tas[0].1, v)), tas.drop_first(), v) == (
            Ok::<ValueV, Errs>(v),
            g.push((tas[0].1, v)),
        ));
    }
}

} // verus!
