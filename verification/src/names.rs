//! The names in scope: types known by their full path, the local names of
//! types, and a stack of value scopes in which inner bindings hide outer ones.
use vstd::prelude::*;

use crate::error::{Loc, L};
use crate::identifier::{FQTypeId, Identifier, PathV, RootV, TypeIdentifier};
use crate::symbol::{known_text, KnownTSymbol};
use crate::types::{known_type, Type, TypeV};

verus! {

/// What can go wrong when a name is added.
#[derive(Debug)]
pub enum NamesError {
    DuplicateFQTypeId(FQTypeId),
    UnknownFQTypeId(FQTypeId),
    DuplicateVal(Identifier),
}

/// What a fully qualified type id stands for.
#[derive(Debug)]
enum Kind {
    Type(Type),
}

spec fn kind_view(k: Kind) -> TypeV {
    match k {
        Kind::Type(t) => t@,
    }
}

/// The map that a list of pairs stands for, later pairs over earlier ones.
pub open spec fn pairs_map<K, V>(l: Seq<(K, V)>) -> Map<K, V>
    decreases l.len(),
{
    if l.len() == 0 {
        Map::empty()
    } else {
        pairs_map(l.drop_last()).insert(l.last().0, l.last().1)
    }
}

/// No key occurs twice.
pub open spec fn distinct_keys<K, V>(l: Seq<(K, V)>) -> bool {
    forall|i: int, j: int| 0 <= i < j < l.len() ==> l[i].0 != l[j].0
}

proof fn lemma_pairs_map<K, V>(l: Seq<(K, V)>)
    requires
        distinct_keys(l),
    ensures
        forall|i: int|
            0 <= i < l.len() ==> #[trigger] pairs_map(l).contains_key(l[i].0) && pairs_map(l)[l[i].0]
                == l[i].1,
        forall|k: K|
            #[trigger] pairs_map(l).contains_key(k) ==> exists|i: int| 0 <= i < l.len() && l[i].0 == k,
    decreases l.len(),
{
    if l.len() > 0 {
        let p = l.drop_last();
        assert forall|i: int, j: int| 0 <= i < j < p.len() implies p[i].0 != p[j].0 by {
            assert(p[i] == l[i] && p[j] == l[j]);
        }
        lemma_pairs_map(p);
        assert forall|i: int| 0 <= i < l.len() implies #[trigger] pairs_map(l).contains_key(l[i].0)
            && pairs_map(l)[l[i].0] == l[i].1 by {
            assert(pairs_map(l) == pairs_map(p).insert(l.last().0, l.last().1));
            if i < l.len() - 1 {
                assert(p[i] == l[i]);
                assert(l[i].0 != l[l.len() - 1].0);
                assert(pairs_map(p).contains_key(p[i].0));
            }
        }
        assert forall|k: K| #[trigger] pairs_map(l).contains_key(k) implies exists|i: int|
            0 <= i < l.len() && l[i].0 == k by {
            if k != l.last().0 {
                assert(pairs_map(p).contains_key(k));
                let i = choose|i: int| 0 <= i < p.len() && p[i].0 == k;
                assert(l[i] == p[i]);
            } else {
                assert(l[l.len() - 1].0 == k);
            }
        }
    }
}

/// Pushing a pair with a new key adds it to the map.
proof fn lemma_pairs_push<K, V>(l: Seq<(K, V)>, k: K, v: V)
    ensures
        pairs_map(l.push((k, v))) == pairs_map(l).insert(k, v),
{
    assert(l.push((k, v)).drop_last() =~= l);
}

/// Replacing the value of a key that occurs changes the map at that key only.
proof fn lemma_pairs_update<K, V>(l: Seq<(K, V)>, i: int, v: V)
    requires
        distinct_keys(l),
        0 <= i < l.len(),
    ensures
        distinct_keys(l.update(i, (l[i].0, v))),
        pairs_map(l.update(i, (l[i].0, v))) == pairs_map(l).insert(l[i].0, v),
{
    let n = l.update(i, (l[i].0, v));
    assert forall|a: int, b: int| 0 <= a < b < n.len() implies n[a].0 != n[b].0 by {
        assert(n[a].0 == l[a].0 && n[b].0 == l[b].0);
    }
    lemma_pairs_map(l);
    lemma_pairs_map(n);
    let m1 = pairs_map(n);
    let m2 = pairs_map(l).insert(l[i].0, v);
    assert forall|k: K| m1.contains_key(k) <==> m2.contains_key(k) by {
        if m1.contains_key(k) {
            let j = choose|j: int| 0 <= j < n.len() && n[j].0 == k;
            assert(l[j].0 == k);
            assert(pairs_map(l).contains_key(l[j].0));
        }
        if m2.contains_key(k) && k != l[i].0 {
            let j = choose|j: int| 0 <= j < l.len() && l[j].0 == k;
            assert(n[j].0 == k);
            assert(m1.contains_key(n[j].0));
        }
        if k == l[i].0 {
            assert(m1.contains_key(n[i].0));
        }
    }
    assert forall|k: K| m1.contains_key(k) implies m1[k] == m2[k] by {
        let j = choose|j: int| 0 <= j < n.len() && n[j].0 == k;
        assert(m1.contains_key(n[j].0));
        if j != i {
            assert(n[j] == l[j]);
            assert(pairs_map(l).contains_key(l[j].0));
        }
    }
    assert(m1 =~= m2);
}

spec fn fq_pairs(l: Seq<(FQTypeId, Kind)>) -> Seq<((PathV, Seq<char>), TypeV)> {
    l.map_values(|p: (FQTypeId, Kind)| (p.0@, kind_view(p.1)))
}

spec fn local_pairs(l: Seq<(TypeIdentifier, FQTypeId)>) -> Seq<(Seq<char>, (PathV, Seq<char>))> {
    l.map_values(|p: (TypeIdentifier, FQTypeId)| (p.0@, p.1@))
}

spec fn val_pairs(l: Seq<(Identifier, Type)>) -> Seq<(Seq<char>, TypeV)> {
    l.map_values(|p: (Identifier, Type)| (p.0@, p.1@))
}

/// The view of the names: the types by full path, the local names of types,
/// and the value scopes from the outermost in.
pub ghost struct NamesV {
    pub types: Map<(PathV, Seq<char>), TypeV>,
    pub locals: Map<Seq<char>, (PathV, Seq<char>)>,
    pub scopes: Seq<Map<Seq<char>, TypeV>>,
}

/// What always holds of the names: there is a scope to add values to, and a
/// local name of a type stands for a type that is known.
pub open spec fn consistent(v: NamesV) -> bool {
    &&& v.scopes.len() >= 1
    &&& forall|k: Seq<char>| #[trigger] v.locals.contains_key(k) ==> v.types.contains_key(v.locals[k])
}

/// The type of a value: in the innermost scope that binds it.
pub open spec fn lookup_val(scopes: Seq<Map<Seq<char>, TypeV>>, id: Seq<char>) -> Option<TypeV>
    decreases scopes.len(),
{
    if scopes.len() == 0 {
        None
    } else if scopes.last().contains_key(id) {
        Some(scopes.last()[id])
    } else {
        lookup_val(scopes.drop_last(), id)
    }
}

/// The scopes once `id` is bound to `t` in the innermost one.
pub open spec fn bind_val(scopes: Seq<Map<Seq<char>, TypeV>>, id: Seq<char>, t: TypeV) -> Seq<
    Map<Seq<char>, TypeV>,
> {
    scopes.update(scopes.len() - 1, scopes.last().insert(id, t))
}

/// The root of the standard package.
pub open spec fn std_root() -> PathV {
    PathV { root: RootV::Std, modules: seq![] }
}

/// The full path of a type the language knows.
pub open spec fn std_fq(k: KnownTSymbol) -> (PathV, Seq<char>) {
    (std_root(), known_text(k))
}

/// The types that every program starts with: the known types, in the
/// standard package and by their local names.
pub open spec fn builtin_types(v: TypeNamesV) -> bool {
    &&& forall|k: KnownTSymbol| #[trigger] v.types.contains_key(std_fq(k)) && v.types[std_fq(k)] == known_type(k)
    &&& forall|x: (PathV, Seq<char>)| #[trigger] v.types.contains_key(x) ==> exists|k: KnownTSymbol| x == std_fq(k)
    &&& forall|k: KnownTSymbol| #[trigger] v.locals.contains_key(known_text(k)) && v.locals[known_text(k)] == std_fq(k)
    &&& forall|s: Seq<char>| #[trigger] v.locals.contains_key(s) ==> exists|k: KnownTSymbol| s == known_text(k)
}

/// The names that every program starts with: the known types and one empty
/// value scope.
pub open spec fn builtin_names(v: NamesV) -> bool {
    &&& v.scopes == seq![Map::<Seq<char>, TypeV>::empty()]
    &&& builtin_types(TypeNamesV { types: v.types, locals: v.locals })
}

/// The view of a type that may be missing.
pub open spec fn type_opt(r: Option<Type>) -> Option<TypeV> {
    match r {
        Some(t) => Some(t@),
        None => None,
    }
}

/// The view of the type names: the types by full path and the local names of types.
pub ghost struct TypeNamesV {
    pub types: Map<(PathV, Seq<char>), TypeV>,
    pub locals: Map<Seq<char>, (PathV, Seq<char>)>,
}

/// A local name of a type stands for a type that is known.
pub open spec fn locals_known(v: TypeNamesV) -> bool {
    forall|k: Seq<char>| #[trigger] v.locals.contains_key(k) ==> v.types.contains_key(v.locals[k])
}

/// The types known by full path, and the local names of types.
#[derive(Debug)]
pub struct TypeNames {
    fq_kinds: Vec<(FQTypeId, Kind)>,
    local_kinds: Vec<(TypeIdentifier, FQTypeId)>,
}

impl View for TypeNames {
    type V = TypeNamesV;

    closed spec fn view(&self) -> TypeNamesV {
        TypeNamesV {
            types: pairs_map(fq_pairs(self.fq_kinds@)),
            locals: pairs_map(local_pairs(self.local_kinds@)),
        }
    }
}

/// The names in scope.
#[derive(Debug)]
pub struct Names {
    types: TypeNames,
    val_scopes: Vec<Vec<(Identifier, Type)>>,
}

impl View for Names {
    type V = NamesV;

    closed spec fn view(&self) -> NamesV {
        NamesV {
            types: self.types@.types,
            locals: self.types@.locals,
            scopes: self.val_scopes@.map_values(
                |v: Vec<(Identifier, Type)>| pairs_map(val_pairs(v@)),
            ),
        }
    }
}

/// Whether the pairs hold the key, and where.
fn find_fq(l: &Vec<(FQTypeId, Kind)>, id: &FQTypeId) -> (r: bool)
    requires
        distinct_keys(fq_pairs(l@)),
    ensures
        r == pairs_map(fq_pairs(l@)).contains_key(id@),
{
    let mut i: usize = 0;
    while i < l.len()
        invariant
            i <= l@.len(),
            distinct_keys(fq_pairs(l@)),
            forall|j: int| 0 <= j < i ==> #[trigger] fq_pairs(l@)[j].0 != id@,
        decreases l@.len() - i,
    {
        if l[i].0.same(id) {
            assert(fq_pairs(l@)[i as int].0 == id@);
            proof {
                lemma_pairs_map(fq_pairs(l@));
            }
            assert(pairs_map(fq_pairs(l@)).contains_key(fq_pairs(l@)[i as int].0));
            return true;
        }
        i = i + 1;
    }
    proof {
        lemma_pairs_map(fq_pairs(l@));
        if pairs_map(fq_pairs(l@)).contains_key(id@) {
            let j = choose|j: int| 0 <= j < fq_pairs(l@).len() && fq_pairs(l@)[j].0 == id@;
        }
    }
    false
}

fn find_local(l: &Vec<(TypeIdentifier, FQTypeId)>, id: &TypeIdentifier) -> (r: Option<usize>)
    requires
        distinct_keys(local_pairs(l@)),
    ensures
        match r {
            Some(i) => i < l@.len() && l@[i as int].0@ == id@,
            None => !pairs_map(local_pairs(l@)).contains_key(id@),
        },
{
    let mut i: usize = 0;
    while i < l.len()
        invariant
            i <= l@.len(),
            distinct_keys(local_pairs(l@)),
            forall|j: int| 0 <= j < i ==> #[trigger] local_pairs(l@)[j].0 != id@,
        decreases l@.len() - i,
    {
        if l[i].0.same(id) {
            return Some(i);
        }
        i = i + 1;
    }
    proof {
        lemma_pairs_map(local_pairs(l@));
        if pairs_map(local_pairs(l@)).contains_key(id@) {
            let j = choose|j: int| 0 <= j < local_pairs(l@).len() && local_pairs(l@)[j].0 == id@;
        }
    }
    None
}

fn find_val(l: &Vec<(Identifier, Type)>, id: &Identifier) -> (r: Option<Type>)
    requires
        distinct_keys(val_pairs(l@)),
    ensures
        type_opt(r) == (if pairs_map(val_pairs(l@)).contains_key(id@) {
            Some(pairs_map(val_pairs(l@))[id@])
        } else {
            None
        }),
{
    let mut i: usize = 0;
    while i < l.len()
        invariant
            i <= l@.len(),
            distinct_keys(val_pairs(l@)),
            forall|j: int| 0 <= j < i ==> #[trigger] val_pairs(l@)[j].0 != id@,
        decreases l@.len() - i,
    {
        if l[i].0.same(id) {
            assert(val_pairs(l@)[i as int].0 == id@);
            proof {
                lemma_pairs_map(val_pairs(l@));
            }
            assert(pairs_map(val_pairs(l@)).contains_key(val_pairs(l@)[i as int].0));
            return Some(l[i].1.duplicate());
        }
        i = i + 1;
    }
    proof {
        lemma_pairs_map(val_pairs(l@));
        if pairs_map(val_pairs(l@)).contains_key(id@) {
            let j = choose|j: int| 0 <= j < val_pairs(l@).len() && val_pairs(l@)[j].0 == id@;
        }
    }
    None
}

impl TypeNames {
    /// How the type names are laid out: no key twice in either list, and every
    /// local name stands for a known type.
    pub closed spec fn wf(&self) -> bool {
        &&& distinct_keys(fq_pairs(self.fq_kinds@))
        &&& distinct_keys(local_pairs(self.local_kinds@))
        &&& locals_known(self@)
    }
}

impl Names {
    /// How the names are laid out: no key twice in any list, and what
    /// `consistent` says of the view.
    pub closed spec fn wf(&self) -> bool {
        &&& self.types.wf()
        &&& forall|i: int|
            0 <= i < self.val_scopes@.len() ==> distinct_keys(val_pairs(#[trigger] self.val_scopes@[i]@))
        &&& consistent(self@)
    }
}


impl Default for Names {
    /// No type, and one empty value scope.
    fn default() -> (r: Names)
        ensures
            r.wf(),
            r@ == (NamesV {
                types: Map::empty(),
                locals: Map::empty(),
                scopes: seq![Map::<Seq<char>, TypeV>::empty()],
            }),
    {
        let mut val_scopes: Vec<Vec<(Identifier, Type)>> = Vec::new();
        val_scopes.push(Vec::new());
        let r = Names { types: TypeNames::new(), val_scopes };
        proof {
            assert(val_pairs(r.val_scopes@[0]@) =~= seq![]);
            assert(r@.scopes =~= seq![Map::<Seq<char>, TypeV>::empty()]);
        }
        r
    }
}

impl TypeNames {
    /// No type and no local name.
    pub fn new() -> (r: TypeNames)
        ensures
            r.wf(),
            r@ == (TypeNamesV { types: Map::empty(), locals: Map::empty() }),
    {
        let r = TypeNames { fq_kinds: Vec::new(), local_kinds: Vec::new() };
        proof {
            assert(pairs_map(fq_pairs(r.fq_kinds@)) =~= Map::empty());
            assert(pairs_map(local_pairs(r.local_kinds@)) =~= Map::empty());
        }
        r
    }

    /// Adds a type by its full path, unless the path is taken.
    fn add_fq_kind(&mut self, id: FQTypeId, kind: Kind) -> (r: Result<(), L<NamesError>>)
        requires
            old(self).wf(),
        ensures
            final(self).wf(),
            if old(self)@.types.contains_key(id@) {
                &&& r matches Err(e) && e.it matches NamesError::DuplicateFQTypeId(x) && x@ == id@
                &&& final(self)@ == old(self)@
            } else {
                &&& r is Ok
                &&& final(self)@ == (TypeNamesV {
                    types: old(self)@.types.insert(id@, kind_view(kind)),
                    ..old(self)@
                })
            },
    {
        if find_fq(&self.fq_kinds, &id) {
            return Err(Loc::none().wrap(NamesError::DuplicateFQTypeId(id)));
        }
        let ghost before = fq_pairs(self.fq_kinds@);
        let ghost key = id@;
        let ghost kv = kind_view(kind);
        self.fq_kinds.push((id, kind));
        proof {
            assert(fq_pairs(self.fq_kinds@) =~= before.push((key, kv)));
            lemma_pairs_push(before, key, kv);
            lemma_pairs_map(before);
            assert forall|i: int, j: int|
                0 <= i < j < fq_pairs(self.fq_kinds@).len() implies fq_pairs(self.fq_kinds@)[i].0
                != fq_pairs(self.fq_kinds@)[j].0 by {
                if j == before.len() {
                    assert(pairs_map(before).contains_key(before[i].0));
                } else {
                    assert(fq_pairs(self.fq_kinds@)[i] == before[i]);
                    assert(fq_pairs(self.fq_kinds@)[j] == before[j]);
                }
            }
            assert forall|k: Seq<char>| #[trigger] self@.locals.contains_key(k) implies self@.types.contains_key(
                self@.locals[k],
            ) by {
                assert(old(self)@.types.contains_key(old(self)@.locals[k]));
            }
        }
        Ok(())
    }

    /// Gives the local name `id` to a known type, in place of what it named before.
    fn add_local_kind(&mut self, id: TypeIdentifier, fq: FQTypeId) -> (r: Result<(), L<NamesError>>)
        requires
            old(self).wf(),
        ensures
            final(self).wf(),
            if !old(self)@.types.contains_key(fq@) {
                &&& r matches Err(e) && e.it matches NamesError::UnknownFQTypeId(x) && x@ == fq@
                &&& final(self)@ == old(self)@
            } else {
                &&& r is Ok
                &&& final(self)@ == (TypeNamesV {
                    locals: old(self)@.locals.insert(id@, fq@),
                    ..old(self)@
                })
            },
    {
        if !find_fq(&self.fq_kinds, &fq) {
            return Err(Loc::none().wrap(NamesError::UnknownFQTypeId(fq)));
        }
        let ghost before = local_pairs(self.local_kinds@);
        let ghost key = id@;
        let ghost val = fq@;
        match find_local(&self.local_kinds, &id) {
            Some(i) => {
                self.local_kinds.set(i, (id, fq));
                proof {
                    assert(before[i as int].0 == key);
                    assert(local_pairs(self.local_kinds@) =~= before.update(i as int, (before[i as int].0, val)));
                    lemma_pairs_update(before, i as int, val);
                }
            },
            None => {
                self.local_kinds.push((id, fq));
                proof {
                    assert(local_pairs(self.local_kinds@) =~= before.push((key, val)));
                    lemma_pairs_push(before, key, val);
                    lemma_pairs_map(before);
                    assert forall|i: int, j: int|
                        0 <= i < j < local_pairs(self.local_kinds@).len() implies local_pairs(
                        self.local_kinds@,
                    )[i].0 != local_pairs(self.local_kinds@)[j].0 by {
                        if j == before.len() {
                            assert(pairs_map(before).contains_key(before[i].0));
                        } else {
                            assert(local_pairs(self.local_kinds@)[i] == before[i]);
                            assert(local_pairs(self.local_kinds@)[j] == before[j]);
                        }
                    }
                }
            },
        }
        proof {
            assert forall|k: Seq<char>| #[trigger] self@.locals.contains_key(k) implies self@.types.contains_key(
                self@.locals[k],
            ) by {
                if k != key {
                    assert(old(self)@.locals.contains_key(k));
                    assert(old(self)@.types.contains_key(old(self)@.locals[k]));
                }
            }
        }
        Ok(())
    }

    /// Adds a type the language knows, under the standard package and by its name.
    fn add_std_type(&mut self, k: KnownTSymbol)
        requires
            old(self).wf(),
            !old(self)@.types.contains_key(std_fq(k)),
        ensures
            final(self).wf(),
            final(self)@ == (TypeNamesV {
                types: old(self)@.types.insert(std_fq(k), known_type(k)),
                locals: old(self)@.locals.insert(known_text(k), std_fq(k)),
            }),
    {
        let id = TypeIdentifier::known(k);
        let fq = FQTypeId::std_type(id.duplicate());
        let added = self.add_fq_kind(fq.duplicate(), Kind::Type(Type::known(k)));
        assert(added is Ok);
        let named = self.add_local_kind(id, fq);
        assert(named is Ok);
    }

    fn add_builtin_types(&mut self)
        requires
            old(self).wf(),
            old(self)@.types == Map::<(PathV, Seq<char>), TypeV>::empty(),
            old(self)@.locals == Map::<Seq<char>, (PathV, Seq<char>)>::empty(),
        ensures
            final(self).wf(),
            final(self)@.types == Map::<(PathV, Seq<char>), TypeV>::empty().insert(
                std_fq(KnownTSymbol::Boolean),
                TypeV::Boolean,
            ).insert(std_fq(KnownTSymbol::True), TypeV::True).insert(
                std_fq(KnownTSymbol::False),
                TypeV::False,
            ).insert(std_fq(KnownTSymbol::Integer), TypeV::Integer).insert(
                std_fq(KnownTSymbol::Unit),
                TypeV::Unit,
            ),
            final(self)@.locals == Map::<Seq<char>, (PathV, Seq<char>)>::empty().insert(
                known_text(KnownTSymbol::Boolean),
                std_fq(KnownTSymbol::Boolean),
            ).insert(known_text(KnownTSymbol::True), std_fq(KnownTSymbol::True)).insert(
                known_text(KnownTSymbol::False),
                std_fq(KnownTSymbol::False),
            ).insert(known_text(KnownTSymbol::Integer), std_fq(KnownTSymbol::Integer)).insert(
                known_text(KnownTSymbol::Unit),
                std_fq(KnownTSymbol::Unit),
            ),
    {
        assert(known_text(KnownTSymbol::True)[0] != known_text(KnownTSymbol::Boolean)[0]);
        self.add_std_type(KnownTSymbol::Boolean);
        assert(known_text(KnownTSymbol::False)[0] != known_text(KnownTSymbol::Boolean)[0]);
        assert(known_text(KnownTSymbol::False)[0] != known_text(KnownTSymbol::True)[0]);
        self.add_std_type(KnownTSymbol::True);
        self.add_std_type(KnownTSymbol::False);
        assert(known_text(KnownTSymbol::Integer)[0] != known_text(KnownTSymbol::Boolean)[0]);
        assert(known_text(KnownTSymbol::Integer)[0] != known_text(KnownTSymbol::True)[0]);
        assert(known_text(KnownTSymbol::Integer)[0] != known_text(KnownTSymbol::False)[0]);
        self.add_std_type(KnownTSymbol::Integer);
        assert(known_text(KnownTSymbol::Unit)[0] != known_text(KnownTSymbol::Boolean)[0]);
        assert(known_text(KnownTSymbol::Unit)[0] != known_text(KnownTSymbol::True)[0]);
        assert(known_text(KnownTSymbol::Unit)[0] != known_text(KnownTSymbol::False)[0]);
        assert(known_text(KnownTSymbol::Unit)[0] != known_text(KnownTSymbol::Integer)[0]);
        self.add_std_type(KnownTSymbol::Unit);
    }

    /// The types the language knows, and no other.
    pub fn builtin() -> (r: TypeNames)
        ensures
            r.wf(),
            builtin_types(r@),
    {
        let mut names = TypeNames::new();
        names.add_builtin_types();
        proof {
            let v = names@;
            assert forall|k: KnownTSymbol| #[trigger] v.types.contains_key(std_fq(k)) && v.types[std_fq(k)]
                == known_type(k) by {
                match k {
                    KnownTSymbol::Unit => {},
                    KnownTSymbol::True => {},
                    KnownTSymbol::False => {},
                    KnownTSymbol::Boolean => {},
                    KnownTSymbol::Integer => {},
                }
            }
            assert forall|x: (PathV, Seq<char>)| #[trigger] v.types.contains_key(x) implies exists|
                k: KnownTSymbol,
            | x == std_fq(k) by {
                if x == std_fq(KnownTSymbol::Boolean) {
                } else if x == std_fq(KnownTSymbol::True) {
                } else if x == std_fq(KnownTSymbol::False) {
                } else if x == std_fq(KnownTSymbol::Integer) {
                } else {
                    assert(x == std_fq(KnownTSymbol::Unit));
                }
            }
            assert forall|k: KnownTSymbol| #[trigger] v.locals.contains_key(known_text(k))
                && v.locals[known_text(k)] == std_fq(k) by {
                match k {
                    KnownTSymbol::Unit => {},
                    KnownTSymbol::True => {},
                    KnownTSymbol::False => {},
                    KnownTSymbol::Boolean => {},
                    KnownTSymbol::Integer => {},
                }
            }
            assert forall|x: Seq<char>| #[trigger] v.locals.contains_key(x) implies exists|k: KnownTSymbol|
                x == known_text(k) by {
                if x == known_text(KnownTSymbol::Boolean) {
                } else if x == known_text(KnownTSymbol::True) {
                } else if x == known_text(KnownTSymbol::False) {
                } else if x == known_text(KnownTSymbol::Integer) {
                } else {
                    assert(x == known_text(KnownTSymbol::Unit));
                }
            }
        }
        names
    }
}

impl Names {
    /// The names every program starts with: the types the language knows.
    pub fn builtin() -> (r: Names)
        ensures
            r.wf(),
            builtin_names(r@),
    {
        let mut val_scopes: Vec<Vec<(Identifier, Type)>> = Vec::new();
        val_scopes.push(Vec::new());
        let r = Names { types: TypeNames::builtin(), val_scopes };
        proof {
            assert(val_pairs(r.val_scopes@[0]@) =~= seq![]);
            assert(r@.scopes =~= seq![Map::<Seq<char>, TypeV>::empty()]);
            assert(TypeNamesV { types: r@.types, locals: r@.locals } == r.types@);
        }
        r
    }
}


impl Names {
    /// Opens a new innermost value scope; the result is the number of scopes,
    /// the key that closes it.
    pub fn push_val_scope(&mut self) -> (r: usize)
        requires
            old(self).wf(),
        ensures
            final(self).wf(),
            final(self)@ == (NamesV {
                scopes: old(self)@.scopes.push(Map::empty()),
                ..old(self)@
            }),
            r == final(self)@.scopes.len(),
    {
        let ghost before = self.val_scopes@;
        self.val_scopes.push(Vec::new());
        proof {
            let n = self.val_scopes@;
            assert(val_pairs(n[n.len() - 1]@) =~= seq![]);
            assert(pairs_map(val_pairs(n[n.len() - 1]@)) =~= Map::<Seq<char>, TypeV>::empty());
            assert forall|i: int| 0 <= i < n.len() implies distinct_keys(val_pairs(#[trigger] n[i]@)) by {
                if i < n.len() - 1 {
                    assert(n[i] == before[i]);
                }
            }
            assert(self@.scopes =~= old(self)@.scopes.push(Map::empty()));
        }
        self.val_scopes.len()
    }

    /// Closes the innermost value scope; `key` is what opening it gave.
    pub fn pop_val_scope(&mut self, key: usize)
        requires
            old(self).wf(),
            key > 1,
            key == old(self)@.scopes.len(),
        ensures
            final(self).wf(),
            final(self)@ == (NamesV { scopes: old(self)@.scopes.drop_last(), ..old(self)@ }),
    {
        let ghost before = self.val_scopes@;
        let _ = self.val_scopes.pop();
        proof {
            let n = self.val_scopes@;
            assert(n =~= before.drop_last());
            assert forall|i: int| 0 <= i < n.len() implies distinct_keys(val_pairs(#[trigger] n[i]@)) by {
                assert(n[i] == before[i]);
            }
            assert(self@.scopes =~= old(self)@.scopes.drop_last());
        }
    }

    /// Binds `id` to `tipo` in the innermost scope, unless it is bound there already.
    pub fn add_val(&mut self, loc: Loc, id: Identifier, tipo: Type) -> (r: Result<(), L<NamesError>>)
        requires
            old(self).wf(),
        ensures
            final(self).wf(),
            if old(self)@.scopes.last().contains_key(id@) {
                &&& r matches Err(e) && e.loc == loc && (e.it matches NamesError::DuplicateVal(x)
                    && x@ == id@)
                &&& final(self)@ == old(self)@
            } else {
                &&& r is Ok
                &&& final(self)@ == (NamesV {
                    scopes: bind_val(old(self)@.scopes, id@, tipo@),
                    ..old(self)@
                })
            },
    {
        let ghost before = self.val_scopes@;
        let ghost n0 = before.len();
        let mut last = self.val_scopes.pop().unwrap();
        assert(last == before[n0 - 1]);
        assert(distinct_keys(val_pairs(before[n0 - 1]@)));
        let ghost lp = val_pairs(last@);
        match find_val(&last, &id) {
            Some(_) => {
                self.val_scopes.push(last);
                proof {
                    assert(self.val_scopes@ =~= before);
                }
                Err(loc.wrap(NamesError::DuplicateVal(id)))
            },
            None => {
                let ghost key = id@;
                let ghost tv = tipo@;
                last.push((id, tipo));
                proof {
                    assert(val_pairs(last@) =~= lp.push((key, tv)));
                    lemma_pairs_push(lp, key, tv);
                    lemma_pairs_map(lp);
                    assert forall|i: int, j: int|
                        0 <= i < j < val_pairs(last@).len() implies val_pairs(last@)[i].0 != val_pairs(
                        last@,
                    )[j].0 by {
                        if j == lp.len() {
                            assert(pairs_map(lp).contains_key(lp[i].0));
                        } else {
                            assert(val_pairs(last@)[i] == lp[i]);
                            assert(val_pairs(last@)[j] == lp[j]);
                        }
                    }
                }
                self.val_scopes.push(last);
                proof {
                    let n = self.val_scopes@;
                    assert forall|i: int| 0 <= i < n.len() implies distinct_keys(
                        val_pairs(#[trigger] n[i]@),
                    ) by {
                        if i < n.len() - 1 {
                            assert(n[i] == before[i]);
                        }
                    }
                    assert(self@.scopes =~= bind_val(old(self)@.scopes, key, tv));
                }
                Ok(())
            },
        }
    }

    /// The type of value `id`, from the innermost scope that binds it.
    pub fn get_val(&self, id: &Identifier) -> (r: Option<Type>)
        requires
            self.wf(),
        ensures
            type_opt(r) == lookup_val(self@.scopes, id@),
    {
        let ghost all = self@.scopes;
        let mut i = self.val_scopes.len();
        proof {
            assert(all.subrange(0, i as int) =~= all);
        }
        while i > 0
            invariant
                i <= self.val_scopes@.len(),
                self.wf(),
                all == self@.scopes,
                lookup_val(all, id@) == lookup_val(all.subrange(0, i as int), id@),
            decreases i,
        {
            let ghost part = all.subrange(0, i as int);
            assert(distinct_keys(val_pairs(self.val_scopes@[i - 1]@)));
            let result = find_val(&self.val_scopes[i - 1], id);
            proof {
                assert(part.last() == all[i - 1]);
                assert(part.drop_last() =~= all.subrange(0, i - 1));
            }
            if result.is_some() {
                return result;
            }
            i = i - 1;
        }
        None
    }
}

/// After a value is bound in the innermost scope, looking it up gives its type,
/// and every other name is looked up as before.
pub proof fn law_get_after_add(scopes: Seq<Map<Seq<char>, TypeV>>, id: Seq<char>, t: TypeV, other: Seq<char>)
    requires
        scopes.len() >= 1,
    ensures
        lookup_val(bind_val(scopes, id, t), id) == Some(t),
        other != id ==> lookup_val(bind_val(scopes, id, t), other) == lookup_val(scopes, other),
{
    let b = bind_val(scopes, id, t);
    assert(b.drop_last() =~= scopes.drop_last());
}

/// Opening a scope changes no lookup, and closing it right away gives back
/// the scopes as they were.
pub proof fn law_push_pop(scopes: Seq<Map<Seq<char>, TypeV>>, id: Seq<char>)
    ensures
        lookup_val(scopes.push(Map::empty()), id) == lookup_val(scopes, id),
        scopes.push(Map::empty()).drop_last() == scopes,
{
    assert(scopes.push(Map::empty()).drop_last() =~= scopes);
}

/// What is bound in an inner scope hides the outer binding while the scope is
/// open, and is forgotten once it is closed.
pub proof fn law_inner_scope(scopes: Seq<Map<Seq<char>, TypeV>>, id: Seq<char>, t: TypeV, other: Seq<char>)
    ensures
        lookup_val(bind_val(scopes.push(Map::empty()), id, t), id) == Some(t),
        lookup_val(bind_val(scopes.push(Map::empty()), id, t).drop_last(), other) == lookup_val(
            scopes,
            other,
        ),
{
    let pushed = scopes.push(Map::empty());
    law_get_after_add(pushed, id, t, other);
    assert(bind_val(pushed, id, t).drop_last() =~= scopes);
}

} // verus!
