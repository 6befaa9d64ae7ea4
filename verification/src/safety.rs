//! Type safety: what the checker accepts, the interpreter evaluates to a value
//! of the checked type, failing only on a division by zero.
use vstd::prelude::*;

use crate::ast::{EV, SV};
use crate::checker::{Ctx, Errs, TEV, TSV, check_expr, check_stmts, lookup, tev_type, tsv_expr};
use crate::error::{ErrV, Error};
use crate::interpreter::{VBindings, eval, eval_stmts};
use crate::types::{TypeV, is_boolean};
use crate::value::{ValueV, has_type, value_type};

verus! {

/// Every global the checker knows that has a value has a value of its type.
pub open spec fn globals_ok(types: Seq<(Seq<char>, TypeV)>, vals: VBindings) -> bool {
    forall|s: Seq<char>|
        #[trigger] lookup(types, s) matches Some(t) ==> (lookup(vals, s) matches Some(v) ==> has_type(
            v,
            t,
        ))
}

/// Every global the checker knows has a value.
pub open spec fn globals_complete(types: Seq<(Seq<char>, TypeV)>, vals: VBindings) -> bool {
    forall|s: Seq<char>| #[trigger] lookup(types, s) is Some ==> lookup(vals, s) is Some
}

/// The locals the checker knows are those bound at run time, each to a value
/// of its type.
pub open spec fn locals_ok(types: Seq<(Seq<char>, TypeV)>, vals: VBindings) -> bool {
    forall|s: Seq<char>|
        {
            &&& (#[trigger] lookup(types, s) is Some) == (lookup(vals, s) is Some)
            &&& lookup(types, s) matches Some(t) ==> has_type(lookup(vals, s)->Some_0, t)
        }
}

/// The run-time errors a checked program can meet: a division by zero, or a
/// global that was checked but has no value.
pub open spec fn runtime_error(types: Seq<(Seq<char>, TypeV)>, g: VBindings, e: ErrV) -> bool {
    ||| e == ErrV::Other(Error::DivisionByZero)
    ||| (e matches ErrV::UnknownSymbol(s) && lookup(types, s) is Some && lookup(g, s) is None)
}

pub open spec fn only_division_by_zero(es: Errs) -> bool {
    forall|i: int| 0 <= i < es.len() ==> (#[trigger] es[i]).1 == ErrV::Other(Error::DivisionByZero)
}

/// What evaluating a checked expression of type `t` may give.
pub open spec fn sound_outcome(
    r: Result<ValueV, Errs>,
    t: TypeV,
    types: Seq<(Seq<char>, TypeV)>,
    g: VBindings,
) -> bool {
    match r {
        Ok(v) => has_type(v, t),
        Err(es) => forall|i: int| 0 <= i < es.len() ==> runtime_error(types, g, (#[trigger] es[i]).1),
    }
}

pub open spec fn tsv_type(s: TSV) -> TypeV {
    tev_type(tsv_expr(s))
}

pub proof fn lemma_lookup_push<T>(l: Seq<(Seq<char>, T)>, x: (Seq<char>, T), s: Seq<char>)
    ensures
        lookup(l.push(x), s) == if x.0 == s {
            Some(x.1)
        } else {
            lookup(l, s)
        },
{
    assert(l.push(x).drop_last() =~= l);
}

/// A lookup in two lists: the second one's binding wins.
pub proof fn lemma_lookup_append<T>(a: Seq<(Seq<char>, T)>, b: Seq<(Seq<char>, T)>, s: Seq<char>)
    ensures
        lookup(a + b, s) == if lookup(b, s) is Some {
            lookup(b, s)
        } else {
            lookup(a, s)
        },
    decreases b.len(),
{
    if b.len() == 0 {
        assert(a + b =~= a);
    } else {
        assert((a + b).drop_last() =~= a + b.drop_last());
        lemma_lookup_append(a, b.drop_last(), s);
    }
}

/// A name that is bound has a binding it stands at.
pub proof fn lemma_lookup_found<T>(l: Seq<(Seq<char>, T)>, s: Seq<char>)
    ensures
        lookup(l, s) matches Some(t) ==> exists|i: int| 0 <= i < l.len() && #[trigger] l[i] == (s, t),
        (exists|i: int| 0 <= i < l.len() && (#[trigger] l[i]).0 == s) ==> lookup(l, s) is Some,
    decreases l.len(),
{
    if l.len() > 0 {
        lemma_lookup_found(l.drop_last(), s);
        if lookup(l, s) is Some && l.last().0 != s {
            let t = lookup(l, s)->Some_0;
            let i = choose|i: int| 0 <= i < l.drop_last().len() && #[trigger] l.drop_last()[i] == (s, t);
            assert(l[i] == (s, t));
        }
        if lookup(l, s) is Some && l.last().0 == s {
            assert(l[l.len() - 1] == (s, l.last().1));
        }
        if exists|i: int| 0 <= i < l.len() && (#[trigger] l[i]).0 == s {
            let i = choose|i: int| 0 <= i < l.len() && (#[trigger] l[i]).0 == s;
            if i < l.len() - 1 {
                assert(l.drop_last()[i].0 == s);
            }
        }
    }
}

/// Where no name occurs twice, each binding is the one a lookup finds.
pub proof fn lemma_lookup_distinct<T>(l: Seq<(Seq<char>, T)>, i: int)
    requires
        forall|a: int, b: int| 0 <= a < b < l.len() ==> #[trigger] l[a].0 != #[trigger] l[b].0,
        0 <= i < l.len(),
    ensures
        lookup(l, l[i].0) == Some(l[i].1),
    decreases l.len(),
{
    if i < l.len() - 1 {
        assert(l.last().0 != l[i].0) by {
            assert(l[i].0 != l[l.len() - 1].0);
        }
        assert(l.drop_last()[i] == l[i]);
        lemma_lookup_distinct(l.drop_last(), i);
    }
}

proof fn lemma_locals_push(
    tl: Seq<(Seq<char>, TypeV)>,
    vl: VBindings,
    s: Seq<char>,
    t: TypeV,
    v: ValueV,
)
    requires
        locals_ok(tl, vl),
        has_type(v, t),
    ensures
        locals_ok(tl.push((s, t)), vl.push((s, v))),
{
    assert forall|n: Seq<char>|
        {
            &&& (#[trigger] lookup(tl.push((s, t)), n) is Some) == (lookup(vl.push((s, v)), n) is Some)
            &&& lookup(tl.push((s, t)), n) matches Some(u) ==> has_type(
                lookup(vl.push((s, v)), n)->Some_0,
                u,
            )
        } by {
        lemma_lookup_push(tl, (s, t), n);
        lemma_lookup_push(vl, (s, v), n);
        assert(lookup(tl, n) is Some == (lookup(vl, n) is Some));
    }
}

proof fn lemma_boolean_value(v: ValueV, t: TypeV)
    requires
        has_type(v, t),
        is_boolean(t),
    ensures
        v == ValueV::True || v == ValueV::False,
{
}

/// Type safety of expressions: in globals and locals that hold values of the
/// types the checker assumed, an expression that checks evaluates to a value
/// of its type, or fails with division by zero or for want of the value of a
/// checked global.
pub proof fn lemma_expr_safety(ctx: Ctx, tl: Seq<(Seq<char>, TypeV)>, g: VBindings, vl: VBindings, e: EV)
    requires
        globals_ok(ctx.globals, g),
        locals_ok(tl, vl),
        check_expr(ctx, tl, e) is Ok,
    ensures
        sound_outcome(
            eval(g, vl, check_expr(ctx, tl, e)->Ok_0),
            tev_type(check_expr(ctx, tl, e)->Ok_0),
            ctx.globals,
            g,
        ),
    decreases e,
{
    let t = check_expr(ctx, tl, e)->Ok_0;
    match e {
        EV::Lit(_, _) => {},
        EV::Sym(_, s) => {
            assert(lookup(tl, s) is Some == (lookup(vl, s) is Some));
            if lookup(tl, s) is None {
                assert(lookup(ctx.globals, s) is Some);
            }
        },
        EV::TSym(_, _) => {},
        EV::Binary(loc, op, a, b) => {
            lemma_expr_safety(ctx, tl, g, vl, *a);
            lemma_expr_safety(ctx, tl, g, vl, *b);
        },
        EV::Cond(loc, c, a, b) => {
            lemma_expr_safety(ctx, tl, g, vl, *c);
            lemma_expr_safety(ctx, tl, g, vl, *a);
            lemma_expr_safety(ctx, tl, g, vl, *b);
            let tc = check_expr(ctx, tl, *c)->Ok_0;
            match eval(g, vl, tc) {
                Ok(vc) => {
                    lemma_boolean_value(vc, tev_type(tc));
                },
                Err(_) => {},
            }
        },
        EV::Then(_, a, b) => {
            lemma_expr_safety(ctx, tl, g, vl, *b);
        },
        EV::Block(_, ss) => {
            if ss.len() > 0 {
                lemma_stmts_safety(ctx, tl, g, vl, ss, ValueV::Unit, TypeV::Unit);
            }
        },
    }
}

/// Type safety of the statements of a block; `last` is the value so far.
pub proof fn lemma_stmts_safety(
    ctx: Ctx,
    tl: Seq<(Seq<char>, TypeV)>,
    g: VBindings,
    vl: VBindings,
    ss: Seq<SV>,
    last: ValueV,
    last_t: TypeV,
)
    requires
        globals_ok(ctx.globals, g),
        locals_ok(tl, vl),
        has_type(last, last_t),
        check_stmts(ctx, tl, ss) is Ok,
    ensures
        ({
            let ts = check_stmts(ctx, tl, ss)->Ok_0;
            sound_outcome(
                eval_stmts(g, vl, ts, last),
                if ts.len() == 0 {
                    last_t
                } else {
                    tsv_type(ts[ts.len() - 1])
                },
                ctx.globals,
                g,
            )
        }),
    decreases ss,
{
    if ss.len() > 0 {
        let ts = check_stmts(ctx, tl, ss)->Ok_0;
        match ss[0] {
            SV::Assign(l, s, x) => {
                lemma_expr_safety(ctx, tl, g, vl, x);
                let t = check_expr(ctx, tl, x)->Ok_0;
                let tl2 = tl.push((s, tev_type(t)));
                let rest = check_stmts(ctx, tl2, ss.drop_first())->Ok_0;
                assert(ts == seq![TSV::Assign(l, s, t)] + rest);
                assert(ts.drop_first() =~= rest);
                assert(lookup(tl, s) is Some == (lookup(vl, s) is Some));
                match eval(g, vl, t) {
                    Ok(v) => {
                        lemma_locals_push(tl, vl, s, tev_type(t), v);
                        lemma_stmts_safety(ctx, tl2, g, vl.push((s, v)), ss.drop_first(), v, tev_type(t));
                        if rest.len() > 0 {
                            assert(ts[ts.len() - 1] == rest[rest.len() - 1]);
                        }
                    },
                    Err(_) => {},
                }
            },
            SV::Expr(x) => {
                lemma_expr_safety(ctx, tl, g, vl, x);
                let t = check_expr(ctx, tl, x)->Ok_0;
                let rest = check_stmts(ctx, tl, ss.drop_first())->Ok_0;
                assert(ts == seq![TSV::Expr(t)] + rest);
                assert(ts.drop_first() =~= rest);
                match eval(g, vl, t) {
                    Ok(v) => {
                        lemma_stmts_safety(ctx, tl, g, vl, ss.drop_first(), v, tev_type(t));
                        if rest.len() > 0 {
                            assert(ts[ts.len() - 1] == rest[rest.len() - 1]);
                        }
                    },
                    Err(_) => {},
                }
            },
        }
    }
}

/// Where every checked global has a value, an expression that checks
/// evaluates to a value of its type or fails with division by zero only.
pub proof fn lemma_expr_safety_complete(
    ctx: Ctx,
    tl: Seq<(Seq<char>, TypeV)>,
    g: VBindings,
    vl: VBindings,
    e: EV,
)
    requires
        globals_ok(ctx.globals, g),
        globals_complete(ctx.globals, g),
        locals_ok(tl, vl),
        check_expr(ctx, tl, e) is Ok,
    ensures
        match eval(g, vl, check_expr(ctx, tl, e)->Ok_0) {
            Ok(v) => has_type(v, tev_type(check_expr(ctx, tl, e)->Ok_0)),
            Err(es) => only_division_by_zero(es),
        },
{
    lemma_expr_safety(ctx, tl, g, vl, e);
    match eval(g, vl, check_expr(ctx, tl, e)->Ok_0) {
        Ok(_) => {},
        Err(es) => {
            assert forall|i: int| 0 <= i < es.len() implies (#[trigger] es[i]).1 == ErrV::Other(
                Error::DivisionByZero,
            ) by {
                assert(runtime_error(ctx.globals, g, es[i].1));
                if let ErrV::UnknownSymbol(s) = es[i].1 {
                    assert(lookup(ctx.globals, s) is Some);
                }
            }
        },
    }
}

} // verus!
