//! The environment that runs keep: the types and globals that earlier input
//! defined. Running input parses it, checks it against the environment and
//! evaluates it there.
use vstd::prelude::*;

use crate::checker::{Binding, Errs, TEV, bindings_view, check_expr, lookup, tev_type, tsymbols_view};
use crate::error::{ErrorVec, errs_view};
use crate::interpreter::{VBinding, VBindings, eval, eval_expr, vbindings_view, vres_view};
use crate::parser::{parse, parsed};
use crate::program::{
    Package, PackageV, TAV, check_module, check_package, checked_in, distinct_names, interpret,
    lemma_check_module_ok, names_of, new_symbols, package_ok, package_view, run_assignments,
    run_exprs,
};
use crate::safety::{
    globals_ok, lemma_expr_safety, lemma_lookup_append, lemma_lookup_distinct, lemma_lookup_found,
    lemma_lookup_push, locals_ok, sound_outcome,
};
use crate::symbol::{Symbol, TSymbol};
use crate::types::TypeV;
use crate::value::{Value, ValueV, has_type};

verus! {

#[verifier::external_type_specification]
#[verifier::external_body]
#[verifier::reject_recursive_types(K)]
#[verifier::reject_recursive_types(V)]
#[verifier::reject_recursive_types(S)]
pub struct ExHashMap<K, V, S>(im::HashMap<K, V, S>);

/// An index from names to positions.
pub type NameIndex = im::HashMap<String, usize>;

/// What an index of names holds: the position each name stands at.
pub uninterp spec fn index_contents(m: NameIndex) -> Map<Seq<char>, usize>;

/// Calls `im::HashMap::new`, which makes an empty map.
#[verifier::external_body]
fn index_new() -> (r: NameIndex)
    ensures
        index_contents(r).dom() == Set::<Seq<char>>::empty(),
{
    im::HashMap::new()
}

/// Calls `im::HashMap::get` with the text of a name: the position the map
/// holds for that text, if any.
#[verifier::external_body]
fn index_get(m: &NameIndex, k: &str) -> (r: Option<usize>)
    ensures
        r == (if index_contents(*m).dom().contains(k@) {
            Some(index_contents(*m)[k@])
        } else {
            None::<usize>
        }),
{
    m.get(k).copied()
}

/// Calls `im::HashMap::insert`: the text maps to the position from then on,
/// and every other text keeps what it had.
#[verifier::external_body]
fn index_insert(m: &mut NameIndex, k: String, v: usize)
    ensures
        index_contents(*final(m)) == index_contents(*old(m)).insert(k@, v),
{
    m.insert(k, v);
}

/// The view of an environment: the types defined, the globals with their
/// types, and the globals that have values.
pub ghost struct EnvV {
    pub types: Seq<Seq<char>>,
    pub symbols: Seq<(Seq<char>, TypeV)>,
    pub values: VBindings,
}

/// What running `input` in an environment gives, and the environment after.
/// Input that does not parse or check leaves the environment as it was; once
/// checked, the types and the globals' types are kept, and each global that
/// was evaluated keeps its value even when a later one fails.
pub open spec fn run_spec(env: EnvV, input: Seq<char>) -> (Result<ValueV, Errs>, EnvV) {
    match parsed(input) {
        Err(es) => (Err(errs_view(es)), env),
        Ok(m) => match check_module(env.types, env.symbols, m) {
            Err(es) => (Err(es), env),
            Ok(p) => {
                let (r, g2) = interpret(env.values, p);
                (
                    r,
                    EnvV {
                        types: p.types,
                        symbols: env.symbols + new_symbols(p.assignments),
                        values: g2,
                    },
                )
            },
        },
    }
}

/// The types and globals earlier input defined.
///
/// The globals' types and values are kept in vectors, each name once, so that
/// what a lookup finds can be proved of the names' texts; `index` maps the text
/// of each global with a value to the position of that value.
pub struct Env {
    types: Vec<TSymbol>,
    symbols: Vec<Binding>,
    values: Vec<VBinding>,
    index: NameIndex,
}

impl View for Env {
    type V = EnvV;

    closed spec fn view(&self) -> EnvV {
        EnvV {
            types: tsymbols_view(self.types@),
            symbols: bindings_view(self.symbols@),
            values: vbindings_view(self.values@),
        }
    }
}

/// The values are those of distinct globals, each of its global's type, and
/// the index holds the position of each.
pub open spec fn env_ok(v: EnvV, index: Map<Seq<char>, usize>) -> bool {
    &&& distinct_names(v.symbols)
    &&& distinct_names(v.values)
    &&& globals_ok(v.symbols, v.values)
    &&& forall|s: Seq<char>| #[trigger] lookup(v.values, s) is Some ==> lookup(v.symbols, s) is Some
    &&& forall|s: Seq<char>| #[trigger] index.dom().contains(s) == (lookup(v.values, s) is Some)
    &&& forall|s: Seq<char>|
        #[trigger] index.dom().contains(s) ==> index[s] < v.values.len() && v.values[index[s] as int].0
            == s
}

impl Env {
    /// Well formed: the values are typed and indexed.
    pub closed spec fn wf(&self) -> bool {
        env_ok(self@, index_contents(self.index))
    }

    /// An empty environment.
    pub fn new() -> (r: Env)
        ensures
            r.wf(),
            r@ == (EnvV { types: seq![], symbols: seq![], values: seq![] }),
    {
        let r = Env { types: Vec::new(), symbols: Vec::new(), values: Vec::new(), index: index_new() };
        assert(r@.types =~= seq![]);
        assert(r@.symbols =~= seq![]);
        assert(r@.values =~= seq![]);
        r
    }

    /// The value of the global `name`, if it has one.
    pub fn value(&self, name: &str) -> (r: Option<Value>)
        requires
            self.wf(),
        ensures
            match lookup(self@.values, name@) {
                Some(v) => r matches Some(x) && x@ == v,
                None => r is None,
            },
    {
        match index_get(&self.index, name) {
            None => None,
            Some(i) => {
                proof {
                    lemma_lookup_distinct(self@.values, i as int);
                }
                Some(self.values[i].value.duplicate())
            },
        }
    }

    /// Runs input: parses it, checks it, and evaluates it; the value of the
    /// last assignment or expression, `None` when there is none.
    pub fn run(&mut self, input: &str) -> (r: Result<Value, ErrorVec>)
        requires
            old(self).wf(),
        ensures
            final(self).wf(),
            vres_view(r) == run_spec(old(self)@, input@).0,
            final(self)@ == run_spec(old(self)@, input@).1,
    {
        let m = match parse(input) {
            Err(e) => {
                return Err(e);
            },
            Ok(m) => m,
        };
        let p = match check_package(&self.types, &self.symbols, &m) {
            Err(e) => {
                return Err(e);
            },
            Ok(p) => p,
        };
        proof {
            lemma_check_module_ok(self@.types, self@.symbols, crate::ast::module_view(m));
        }
        self.run_package(&p)
    }

    /// Evaluates a checked package.
    fn run_package(&mut self, p: &Package) -> (r: Result<Value, ErrorVec>)
        requires
            old(self).wf(),
            package_ok(old(self)@.symbols, package_view(*p)),
        ensures
            final(self).wf(),
            vres_view(r) == interpret(old(self)@.values, package_view(*p)).0,
            final(self)@ == (EnvV {
                types: package_view(*p).types,
                symbols: old(self)@.symbols + new_symbols(package_view(*p).assignments),
                values: interpret(old(self)@.values, package_view(*p)).1,
            }),
    {
        let ghost pv = package_view(*p);
        let ghost s0 = self@.symbols;
        let ghost v0 = self@.values;
        self.bind_package(p);
        let last = match self.run_package_assignments(p, Ghost(s0), Ghost(v0)) {
            Err(e) => {
                return Err(e);
            },
            Ok(v) => v,
        };
        self.run_package_exprs(p, last)
    }

    /// Takes the package's types, and its globals with their types.
    fn bind_package(&mut self, p: &Package)
        requires
            old(self).wf(),
            package_ok(old(self)@.symbols, package_view(*p)),
        ensures
            final(self).wf(),
            final(self)@ == (EnvV {
                types: package_view(*p).types,
                symbols: old(self)@.symbols + new_symbols(package_view(*p).assignments),
                values: old(self)@.values,
            }),
            final(self).index == old(self).index,
    {
        let ghost pv = package_view(*p);
        let ghost s0 = self@.symbols;
        let ghost vals = self.values@;
        let mut types: Vec<TSymbol> = Vec::new();
        let mut i: usize = 0;
        while i < p.types.len()
            invariant
                i <= p.types@.len(),
                tsymbols_view(types@) == tsymbols_view(p.types@).subrange(0, i as int),
            decreases p.types@.len() - i,
        {
            let x = p.types[i].duplicate();
            let ghost before = types@;
            types.push(x);
            assert(types@ == before.push(x));
            assert(tsymbols_view(types@) =~= tsymbols_view(before).push(x@));
            assert(tsymbols_view(p.types@).subrange(0, i + 1) =~= tsymbols_view(p.types@).subrange(
                0,
                i as int,
            ).push(tsymbols_view(p.types@)[i as int]));
            assert(tsymbols_view(types@) =~= tsymbols_view(p.types@).subrange(0, i + 1));
            i = i + 1;
        }
        assert(tsymbols_view(p.types@).subrange(0, i as int) =~= tsymbols_view(p.types@));
        self.types = types;
        let mut k: usize = 0;
        while k < p.assignments.len()
            invariant
                k <= p.assignments@.len(),
                pv == package_view(*p),
                bindings_view(self.symbols@) == s0 + new_symbols(pv.assignments.take(k as int)),
                tsymbols_view(self.types@) == pv.types,
                self.values@ == vals,
                self.index == old(self).index,
            decreases p.assignments@.len() - k,
        {
            let a = &p.assignments[k];
            let b = Binding { symbol: a.symbol.duplicate(), tipo: a.expr.type_of() };
            let ghost before = self.symbols@;
            self.symbols.push(b);
            assert(self.symbols@ == before.push(b));
            assert(bindings_view(self.symbols@) =~= bindings_view(before).push((b.symbol@, b.tipo@)));
            assert(pv.assignments[k as int] == (a.loc, a.symbol@, a.expr@));
            assert(pv.assignments.take(k + 1) =~= pv.assignments.take(k as int).push(pv.assignments[k as int]));
            assert(new_symbols(pv.assignments.take(k + 1)) =~= new_symbols(pv.assignments.take(k as int)).push(
                (a.symbol@, tev_type(a.expr@)),
            ));
            assert(bindings_view(self.symbols@) =~= s0 + new_symbols(pv.assignments.take(k + 1)));
            k = k + 1;
        }
        assert(pv.assignments.take(k as int) =~= pv.assignments);
        proof {
            lemma_package_symbols(s0, pv);
            let v = self@;
            let ov = old(self)@;
            assert(ov.values == v.values);
            assert(env_ok(ov, index_contents(old(self).index)));
            assert forall|s: Seq<char>| #[trigger] lookup(v.values, s) is Some implies lookup(v.symbols, s) is Some by {
                lemma_lookup_append(s0, new_symbols(pv.assignments), s);
            }
            assert forall|s: Seq<char>|
                #[trigger] lookup(v.symbols, s) is Some && lookup(v.values, s) is Some implies has_type(
                    lookup(v.values, s)->Some_0,
                    lookup(v.symbols, s)->Some_0,
                ) by {
                lemma_lookup_append(s0, new_symbols(pv.assignments), s);
                assert(lookup(s0, s) is Some);
            }
        }
    }

    /// Evaluates the package's assignments in order, giving each global its
    /// value; the value of the last.
    #[verifier::rlimit(60)]
    fn run_package_assignments(&mut self, p: &Package, Ghost(s0): Ghost<Seq<(Seq<char>, TypeV)>>, Ghost(v0): Ghost<VBindings>) -> (r: Result<Value, ErrorVec>)
        requires
            old(self).wf(),
            package_ok(s0, package_view(*p)),
            old(self)@.symbols == s0 + new_symbols(package_view(*p).assignments),
            old(self)@.values == v0,
            forall|s: Seq<char>| #[trigger] lookup(v0, s) is Some ==> lookup(s0, s) is Some,
        ensures
            final(self).wf(),
            vres_view(r) == run_assignments(v0, package_view(*p).assignments, ValueV::Unit).0,
            final(self)@ == (EnvV {
                values: run_assignments(v0, package_view(*p).assignments, ValueV::Unit).1,
                ..old(self)@
            }),
    {
        let ghost pv = package_view(*p);
        let ghost tas = pv.assignments;
        let ghost start = self@;
        let mut last = Value::Unit;
        let mut k: usize = 0;
        assert(tas.subrange(0, tas.len() as int) =~= tas);
        assert(v0 + Seq::<(Seq<char>, ValueV)>::empty() =~= v0);
        while k < p.assignments.len()
            invariant
                k <= p.assignments@.len(),
                pv == package_view(*p),
                tas == pv.assignments,
                package_ok(s0, pv),
                self.wf(),
                self@.symbols == start.symbols,
                self@.types == start.types,
                start.symbols == old(self)@.symbols,
                start.types == old(self)@.types,
                start.symbols == s0 + new_symbols(tas),
                forall|s: Seq<char>| #[trigger] lookup(v0, s) is Some ==> lookup(s0, s) is Some,
                self@.values.len() == v0.len() + k,
                self@.values.subrange(0, v0.len() as int) == v0,
                forall|j: int| 0 <= j < k ==> #[trigger] self@.values[v0.len() + j].0 == tas[j].1,
                run_assignments(v0, tas, ValueV::Unit) == run_assignments(
                    self@.values,
                    tas.subrange(k as int, tas.len() as int),
                    last@,
                ),
            decreases p.assignments@.len() - k,
        {
            let ghost g = self@.values;
            let ghost rest = tas.subrange(k as int, tas.len() as int);
            assert(rest[0] == tas[k as int]);
            assert(rest.drop_first() =~= tas.subrange(k + 1, tas.len() as int));
            let a = &p.assignments[k];
            let empty: Vec<VBinding> = Vec::new();
            assert(vbindings_view(empty@) =~= seq![]);
            let v = match eval_expr(&self.values, &empty, &a.expr) {
                Err(e) => {
                    return Err(e);
                },
                Ok(v) => v,
            };
            proof {
                lemma_value_typed(s0, pv, g, k as int);
                lemma_new_name_unbound(s0, v0, pv, g, k as int);
            }
            proof {
                assert(self@.symbols[s0.len() + k] == new_symbols(tas)[k as int]);
                lemma_lookup_distinct(self@.symbols, s0.len() + k);
            }
            self.bind_value(&a.symbol, v.duplicate(), Ghost(tev_type(tas[k as int].2)));
            proof {
                assert(self@.values.subrange(0, v0.len() as int) =~= g.subrange(0, v0.len() as int));
            }
            last = v;
            k = k + 1;
        }
        Ok(last)
    }

    /// Gives the global `name`, of type `t`, its value `v`.
    fn bind_value(&mut self, name: &Symbol, v: Value, Ghost(t): Ghost<TypeV>)
        requires
            old(self).wf(),
            lookup(old(self)@.values, name@) is None,
            forall|i: int| 0 <= i < old(self)@.values.len() ==> (#[trigger] old(self)@.values[i]).0 != name@,
            lookup(old(self)@.symbols, name@) == Some(t),
            has_type(v@, t),
        ensures
            final(self).wf(),
            final(self)@ == (EnvV { values: old(self)@.values.push((name@, v@)), ..old(self)@ }),
    {
        let pos = self.values.len();
        let key = name.as_str().to_owned();
        let ghost g = self@.values;
        let ghost before = self.values@;
        let ghost idx = index_contents(self.index);
        let b = VBinding { symbol: name.duplicate(), value: v };
        self.values.push(b);
        assert(self.values@ == before.push(b));
        index_insert(&mut self.index, key, pos);
        proof {
            assert(self@.values =~= g.push((name@, b.value@)));
            lemma_push_keeps_ok(self@.symbols, g, idx, name@, b.value@, t, self@.types, pos);
        }
    }

    /// Evaluates the package's expressions in order: the value of the last,
    /// or `last` when there is none.
    fn run_package_exprs(&self, p: &Package, last: Value) -> (r: Result<Value, ErrorVec>)
        ensures
            vres_view(r) == run_exprs(self@.values, package_view(*p).exprs, last@),
    {
        let ghost es = package_view(*p).exprs;
        let mut last = last;
        let mut k: usize = 0;
        let ghost l0 = last@;
        assert(es.subrange(0, es.len() as int) =~= es);
        let empty: Vec<VBinding> = Vec::new();
        assert(vbindings_view(empty@) =~= seq![]);
        while k < p.exprs.len()
            invariant
                k <= p.exprs@.len(),
                es == package_view(*p).exprs,
                vbindings_view(empty@) == Seq::<(Seq<char>, ValueV)>::empty(),
                run_exprs(self@.values, es, l0) == run_exprs(
                    self@.values,
                    es.subrange(k as int, es.len() as int),
                    last@,
                ),
            decreases p.exprs@.len() - k,
        {
            let ghost rest = es.subrange(k as int, es.len() as int);
            assert(rest[0] == es[k as int]);
            assert(rest.drop_first() =~= es.subrange(k + 1, es.len() as int));
            match eval_expr(&self.values, &empty, &p.exprs[k]) {
                Err(e) => {
                    return Err(e);
                },
                Ok(v) => {
                    last = v;
                },
            }
            k = k + 1;
        }
        Ok(last)
    }
}

proof fn lemma_package_symbols(s0: Seq<(Seq<char>, TypeV)>, pv: PackageV)
    requires
        distinct_names(s0),
        package_ok(s0, pv),
    ensures
        distinct_names(s0 + new_symbols(pv.assignments)),
        forall|s: Seq<char>| #[trigger] lookup(s0, s) is Some ==> lookup(new_symbols(pv.assignments), s) is None,
        forall|k: int| 0 <= k < pv.assignments.len() ==> lookup(s0, #[trigger] pv.assignments[k].1) is None,
{
    let n = new_symbols(pv.assignments);
    let all = s0 + n;
    assert forall|k: int| 0 <= k < pv.assignments.len() implies lookup(s0, #[trigger] pv.assignments[k].1) is None by {
        let name = pv.assignments[k].1;
        assert(!names_of(s0).contains(name));
        lemma_lookup_found(s0, name);
        if lookup(s0, name) is Some {
            let i = choose|i: int| 0 <= i < s0.len() && #[trigger] s0[i] == (name, lookup(s0, name)->Some_0);
            assert(names_of(s0)[i] == name);
        }
    }
    assert forall|s: Seq<char>| #[trigger] lookup(s0, s) is Some implies lookup(n, s) is None by {
        lemma_lookup_found(n, s);
        if lookup(n, s) is Some {
            let i = choose|i: int| 0 <= i < n.len() && #[trigger] n[i] == (s, lookup(n, s)->Some_0);
            assert(n[i].0 == pv.assignments[i].1);
            assert(lookup(s0, pv.assignments[i].1) is None);
        }
    }
    assert forall|i: int, j: int| 0 <= i < j < all.len() implies #[trigger] all[i].0 != #[trigger] all[j].0 by {
        if j >= s0.len() && i < s0.len() {
            let k = j - s0.len();
            assert(all[j] == n[k]);
            assert(n[k].0 == pv.assignments[k].1);
            assert(lookup(s0, pv.assignments[k].1) is None);
            lemma_lookup_found(s0, all[i].0);
            assert(s0[i] == all[i]);
        } else if i >= s0.len() {
            assert(all[i] == n[i - s0.len()]);
            assert(all[j] == n[j - s0.len()]);
        } else {
            assert(all[i] == s0[i]);
            assert(all[j] == s0[j]);
        }
    }
}

/// The globals known when an assignment was checked are bound as they are
/// once the whole package is.
proof fn lemma_prefix_lookup(s0: Seq<(Seq<char>, TypeV)>, pv: PackageV, k: int, s: Seq<char>)
    requires
        distinct_names(s0 + new_symbols(pv.assignments)),
        0 <= k <= pv.assignments.len(),
        lookup(s0 + new_symbols(pv.assignments.take(k)), s) is Some,
    ensures
        lookup(s0 + new_symbols(pv.assignments.take(k)), s) == lookup(s0 + new_symbols(pv.assignments), s),
{
    let n = new_symbols(pv.assignments);
    let a = s0 + new_symbols(pv.assignments.take(k));
    let b = n.subrange(k, n.len() as int);
    assert(new_symbols(pv.assignments.take(k)) =~= n.take(k));
    assert(s0 + n =~= a + b);
    lemma_lookup_append(a, b, s);
    lemma_lookup_found(a, s);
    lemma_lookup_found(b, s);
    if lookup(b, s) is Some {
        let i = choose|i: int| 0 <= i < a.len() && #[trigger] a[i] == (s, lookup(a, s)->Some_0);
        let j = choose|j: int| 0 <= j < b.len() && #[trigger] b[j] == (s, lookup(b, s)->Some_0);
        assert((a + b)[i].0 == (a + b)[a.len() + j].0);
    }
}

/// The value of a global assignment has the type it was checked with.
proof fn lemma_value_typed(s0: Seq<(Seq<char>, TypeV)>, pv: PackageV, g: VBindings, k: int)
    requires
        distinct_names(s0 + new_symbols(pv.assignments)),
        globals_ok(s0 + new_symbols(pv.assignments), g),
        package_ok(s0, pv),
        0 <= k < pv.assignments.len(),
    ensures
        eval(g, seq![], pv.assignments[k].2) matches Ok(v) ==> has_type(v, tev_type(pv.assignments[k].2)),
{
    let t = pv.assignments[k].2;
    let ctx = crate::checker::Ctx { globals: s0 + new_symbols(pv.assignments.take(k)), types: pv.types };
    assert(checked_in(ctx, t));
    let e = choose|e: crate::ast::EV| check_expr(ctx, seq![], e) == Ok::<TEV, Errs>(t);
    assert forall|s: Seq<char>|
        #[trigger] lookup(ctx.globals, s) is Some && lookup(g, s) is Some implies has_type(
            lookup(g, s)->Some_0,
            lookup(ctx.globals, s)->Some_0,
        ) by {
        lemma_prefix_lookup(s0, pv, k, s);
    }
    assert(locals_ok(seq![], seq![]));
    lemma_expr_safety(ctx, seq![], g, seq![], e);
}

/// The name of the next global to evaluate has no value yet.
proof fn lemma_new_name_unbound(s0: Seq<(Seq<char>, TypeV)>, v0: VBindings, pv: PackageV, g: VBindings, k: int)
    requires
        distinct_names(s0 + new_symbols(pv.assignments)),
        package_ok(s0, pv),
        0 <= k < pv.assignments.len(),
        forall|s: Seq<char>| #[trigger] lookup(v0, s) is Some ==> lookup(s0, s) is Some,
        g.len() == v0.len() + k,
        g.subrange(0, v0.len() as int) == v0,
        forall|j: int| 0 <= j < k ==> #[trigger] g[v0.len() + j].0 == pv.assignments[j].1,
    ensures
        lookup(g, pv.assignments[k].1) is None,
        forall|i: int| 0 <= i < g.len() ==> (#[trigger] g[i]).0 != pv.assignments[k].1,
{
    lemma_package_symbols_k(s0, pv, k);
    let name = pv.assignments[k].1;
    assert forall|i: int| 0 <= i < g.len() implies (#[trigger] g[i]).0 != name by {
        if i < v0.len() {
            assert(g[i] == v0[i]);
            if g[i].0 == name {
                lemma_lookup_found(v0, name);
                assert(v0[i].0 == name);
                assert(lookup(s0, name) is Some);
            }
        } else {
            let j = i - v0.len();
            assert(g[v0.len() + j].0 == pv.assignments[j].1);
            let n = new_symbols(pv.assignments);
            assert(n[j].0 == pv.assignments[j].1);
            assert(n[k].0 == pv.assignments[k].1);
            assert((s0 + n)[s0.len() + j] == n[j]);
            assert((s0 + n)[s0.len() + k] == n[k]);
        }
    }
    lemma_lookup_found(g, name);
}

proof fn lemma_package_symbols_k(s0: Seq<(Seq<char>, TypeV)>, pv: PackageV, k: int)
    requires
        package_ok(s0, pv),
        0 <= k < pv.assignments.len(),
    ensures
        lookup(s0, pv.assignments[k].1) is None,
{
    let name = pv.assignments[k].1;
    assert(!names_of(s0).contains(name));
    lemma_lookup_found(s0, name);
    if lookup(s0, name) is Some {
        let i = choose|i: int| 0 <= i < s0.len() && #[trigger] s0[i] == (name, lookup(s0, name)->Some_0);
        assert(names_of(s0)[i] == name);
    }
}

/// Binding a new global to a value of its type keeps the environment well
/// formed.
proof fn lemma_push_keeps_ok(
    symbols: Seq<(Seq<char>, TypeV)>,
    g: VBindings,
    index: Map<Seq<char>, usize>,
    name: Seq<char>,
    v: ValueV,
    t: TypeV,
    types: Seq<Seq<char>>,
    pos: usize,
)
    requires
        env_ok(EnvV { types, symbols, values: g }, index),
        forall|i: int| 0 <= i < g.len() ==> (#[trigger] g[i]).0 != name,
        lookup(g, name) is None,
        lookup(symbols, name) == Some(t),
        has_type(v, t),
        pos == g.len(),
    ensures
        env_ok(EnvV { types, symbols, values: g.push((name, v)) }, index.insert(name, pos)),
{
    let g2 = g.push((name, v));
    let idx = index.insert(name, pos);
    assert forall|s: Seq<char>| true implies lookup(g2, s) == if name == s { Some(v) } else { lookup(g, s) } by {
        lemma_lookup_push(g, (name, v), s);
    }
    assert forall|i: int, j: int| 0 <= i < j < g2.len() implies #[trigger] g2[i].0 != #[trigger] g2[j].0 by {
        if j == g.len() {
            assert(g2[i] == g[i]);
        } else {
            assert(g2[i] == g[i]);
            assert(g2[j] == g[j]);
        }
    }
    assert forall|s: Seq<char>|
        #[trigger] lookup(symbols, s) is Some && lookup(g2, s) is Some implies has_type(
            lookup(g2, s)->Some_0,
            lookup(symbols, s)->Some_0,
        ) by {
        lemma_lookup_push(g, (name, v), s);
    }
    assert forall|s: Seq<char>| #[trigger] lookup(g2, s) is Some implies lookup(symbols, s) is Some by {
        lemma_lookup_push(g, (name, v), s);
    }
    assert forall|s: Seq<char>| #[trigger] idx.dom().contains(s) == (lookup(g2, s) is Some) by {
        lemma_lookup_push(g, (name, v), s);
    }
    assert forall|s: Seq<char>|
        #[trigger] idx.dom().contains(s) implies idx[s] < g2.len() && g2[idx[s] as int].0 == s by {
        if s != name {
            assert(g2[idx[s] as int] == g[idx[s] as int]);
        }
    }
}


/// Evaluating assignments only adds bindings, for the names assigned.
proof fn lemma_run_assignments_extends(g: VBindings, tas: Seq<TAV>, last: ValueV, s: Seq<char>)
    requires
        forall|k: int| 0 <= k < tas.len() ==> #[trigger] tas[k].1 != s,
    ensures
        lookup(run_assignments(g, tas, last).1, s) == lookup(g, s),
    decreases tas.len(),
{
    if tas.len() > 0 {
        match eval(g, seq![], tas[0].2) {
            Err(_) => {},
            Ok(v) => {
                assert forall|k: int| 0 <= k < tas.drop_first().len() implies #[trigger] tas.drop_first()[k].1
                    != s by {
                    assert(tas.drop_first()[k] == tas[k + 1]);
                }
                lemma_run_assignments_extends(g.push((tas[0].1, v)), tas.drop_first(), v, s);
                lemma_lookup_push(g, (tas[0].1, v), s);
            },
        }
    }
}

/// A global keeps its value: whatever later input holds, and whether or not it
/// runs to the end, every global that had a value has the same one afterwards.
pub proof fn law_run_keeps_values(before: EnvV, input: Seq<char>, s: Seq<char>)
    requires
        lookup(before.values, s) is Some ==> lookup(before.symbols, s) is Some,
    ensures
        lookup(before.values, s) is Some ==> lookup(run_spec(before, input).1.values, s) == lookup(
            before.values,
            s,
        ),
{
    if lookup(before.values, s) is Some {
        match parsed(input) {
            Err(_) => {},
            Ok(m) => match check_module(before.types, before.symbols, m) {
                Err(_) => {},
                Ok(p) => {
                    lemma_check_module_ok(before.types, before.symbols, m);
                    lemma_lookup_found(before.symbols, s);
                    let t = lookup(before.symbols, s)->Some_0;
                    let i = choose|i: int| 0 <= i < before.symbols.len() && #[trigger] before.symbols[i] == (s, t);
                    assert(names_of(before.symbols)[i] == s);
                    assert forall|k: int| 0 <= k < p.assignments.len() implies #[trigger] p.assignments[k].1 != s by {
                        assert(!names_of(before.symbols).contains(p.assignments[k].1));
                    }
                    lemma_run_assignments_extends(before.values, p.assignments, ValueV::Unit, s);
                },
            },
        }
    }
}

/// Input that does not parse, or does not check, leaves the environment as it was.
pub proof fn law_rejected_input_changes_nothing(before: EnvV, input: Seq<char>)
    requires
        parsed(input) is Err || check_module(before.types, before.symbols, parsed(input)->Ok_0) is Err,
    ensures
        run_spec(before, input).1 == before,
        run_spec(before, input).0 is Err,
{
}

} // verus!
