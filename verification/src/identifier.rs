//! Identifiers of values, types and packages, validated on creation.
use vstd::prelude::*;

use crate::keyword::{str_chars, Keyword};
use crate::symbol::{
    check_name, is_ascii_alnum, is_valid_name, known_text, name_problem, tail_alnum_upto, KnownTSymbol,
    NameProblem,
};

verus! {

/// Why a text is not a valid identifier.
#[derive(Clone, Copy, Debug, PartialEq, Eq)]
pub enum IdError {
    Empty,
    TypeEmpty,
    Keyword(Keyword),
    InvalidInitial(char),
    InvalidTypeInitial(char),
    InvalidChar(usize, char),
}

/// The error reported for a rejected identifier of the given case.
pub open spec fn id_error(p: NameProblem, upper: bool) -> IdError {
    match p {
        NameProblem::Empty => if upper {
            IdError::TypeEmpty
        } else {
            IdError::Empty
        },
        NameProblem::Keyword(k) => IdError::Keyword(k),
        NameProblem::InvalidInitial(c) => if upper {
            IdError::InvalidTypeInitial(c)
        } else {
            IdError::InvalidInitial(c)
        },
        NameProblem::InvalidChar(i, c) => IdError::InvalidChar(i, c),
    }
}

fn to_id_error(p: NameProblem, upper: bool) -> (r: IdError)
    ensures
        r == id_error(p, upper),
{
    match p {
        NameProblem::Empty => if upper {
            IdError::TypeEmpty
        } else {
            IdError::Empty
        },
        NameProblem::Keyword(k) => IdError::Keyword(k),
        NameProblem::InvalidInitial(c) => if upper {
            IdError::InvalidTypeInitial(c)
        } else {
            IdError::InvalidInitial(c)
        },
        NameProblem::InvalidChar(i, c) => IdError::InvalidChar(i, c),
    }
}

/// The identifier of a value or a module: a lower-case initial, then ASCII
/// letters and digits, and never a keyword.
#[derive(Clone, Debug, PartialEq, Eq)]
pub struct Identifier {
    name: String,
}

impl View for Identifier {
    type V = Seq<char>;

    closed spec fn view(&self) -> Seq<char> {
        self.name@
    }
}

impl Identifier {
    /// Validates `name`.
    pub fn new(name: &str) -> (r: Result<Identifier, IdError>)
        ensures
            name_problem(name@, false) is None ==> (r matches Ok(id) && id@ == name@),
            name_problem(name@, false) matches Some(p) ==> r == Err::<Identifier, IdError>(
                id_error(p, false),
            ),
    {
        let v = str_chars(name);
        match check_name(&v, false) {
            None => Ok(Identifier { name: name.to_owned() }),
            Some(p) => Err(to_id_error(p, false)),
        }
    }

    /// The text of the identifier.
    pub fn as_str(&self) -> (r: &str)
        ensures
            r@ == self@,
    {
        self.name.as_str()
    }

    pub fn duplicate(&self) -> (r: Identifier)
        ensures
            r@ == self@,
    {
        Identifier { name: self.name.clone() }
    }

    /// Whether both identifiers have the same text.
    pub fn same(&self, other: &Identifier) -> (r: bool)
        ensures
            r == (self@ == other@),
    {
        self.name == other.name
    }
}

/// The identifier of a type: an upper-case initial, then ASCII letters and digits.
#[derive(Clone, Debug, PartialEq, Eq)]
pub struct TypeIdentifier {
    name: String,
}

impl View for TypeIdentifier {
    type V = Seq<char>;

    closed spec fn view(&self) -> Seq<char> {
        self.name@
    }
}

impl TypeIdentifier {
    /// Validates `name`.
    pub fn new(name: &str) -> (r: Result<TypeIdentifier, IdError>)
        ensures
            name_problem(name@, true) is None ==> (r matches Ok(id) && id@ == name@),
            name_problem(name@, true) matches Some(p) ==> r == Err::<TypeIdentifier, IdError>(
                id_error(p, true),
            ),
    {
        let v = str_chars(name);
        match check_name(&v, true) {
            None => Ok(TypeIdentifier { name: name.to_owned() }),
            Some(p) => Err(to_id_error(p, true)),
        }
    }

    /// The text of the identifier.
    pub fn as_str(&self) -> (r: &str)
        ensures
            r@ == self@,
    {
        self.name.as_str()
    }

    pub fn duplicate(&self) -> (r: TypeIdentifier)
        ensures
            r@ == self@,
    {
        TypeIdentifier { name: self.name.clone() }
    }

    /// Whether both identifiers have the same text.
    pub fn same(&self, other: &TypeIdentifier) -> (r: bool)
        ensures
            r == (self@ == other@),
    {
        self.name == other.name
    }
}

/// A package: the standard one, the current one, or another one by name.
#[derive(Clone, Debug, PartialEq, Eq)]
pub enum PackageId {
    Std,
    Current,
    Package(Identifier),
}

impl PackageId {
    /// Validates the name of a package; it follows the rules of value identifiers.
    pub fn new(name: &str) -> (r: Result<Identifier, IdError>)
        ensures
            name_problem(name@, false) is None ==> (r matches Ok(id) && id@ == name@),
            name_problem(name@, false) matches Some(p) ==> r == Err::<Identifier, IdError>(
                id_error(p, false),
            ),
    {
        Identifier::new(name)
    }
}


/// The view of a package id: which one, and the name of a named one.
pub ghost enum PackageIdV {
    Std,
    Current,
    Package(Seq<char>),
}

impl View for PackageId {
    type V = PackageIdV;

    open spec fn view(&self) -> PackageIdV {
        match self {
            PackageId::Std => PackageIdV::Std,
            PackageId::Current => PackageIdV::Current,
            PackageId::Package(id) => PackageIdV::Package(id@),
        }
    }
}

impl PackageId {
    pub fn duplicate(&self) -> (r: PackageId)
        ensures
            r@ == self@,
    {
        match self {
            PackageId::Std => PackageId::Std,
            PackageId::Current => PackageId::Current,
            PackageId::Package(id) => PackageId::Package(id.duplicate()),
        }
    }

    pub fn same(&self, other: &PackageId) -> (r: bool)
        ensures
            r == (self@ == other@),
    {
        match (self, other) {
            (PackageId::Std, PackageId::Std) => true,
            (PackageId::Current, PackageId::Current) => true,
            (PackageId::Package(a), PackageId::Package(b)) => a.same(b),
            _ => false,
        }
    }
}

/// Where a module path starts: the standard package, this package, or another.
pub ghost enum RootV {
    Std,
    ThisPackage,
    Package(PackageIdV),
}

/// The view of a module path: where it starts and the modules below, from the
/// top down.
pub ghost struct PathV {
    pub root: RootV,
    pub modules: Seq<Seq<char>>,
}

#[derive(Debug)]
enum InnerPath {
    Std,
    StdChild(Identifier),
    ThisPackage,
    ThisPackageChild(Identifier),
    Package(PackageId),
    PackageChild(PackageId, Identifier),
    Module(Box<InnerPath>, Identifier),
}

spec fn inner_view(p: InnerPath) -> PathV
    decreases p,
{
    match p {
        InnerPath::Std => PathV { root: RootV::Std, modules: seq![] },
        InnerPath::StdChild(id) => PathV { root: RootV::Std, modules: seq![id@] },
        InnerPath::ThisPackage => PathV { root: RootV::ThisPackage, modules: seq![] },
        InnerPath::ThisPackageChild(id) => PathV { root: RootV::ThisPackage, modules: seq![id@] },
        InnerPath::Package(pid) => PathV { root: RootV::Package(pid@), modules: seq![] },
        InnerPath::PackageChild(pid, id) => PathV { root: RootV::Package(pid@), modules: seq![id@] },
        InnerPath::Module(parent, id) => {
            let v = inner_view(*parent);
            PathV { root: v.root, modules: v.modules.push(id@) }
        },
    }
}

fn inner_duplicate(p: &InnerPath) -> (r: InnerPath)
    ensures
        inner_view(r) == inner_view(*p),
    decreases p,
{
    match p {
        InnerPath::Std => InnerPath::Std,
        InnerPath::StdChild(id) => InnerPath::StdChild(id.duplicate()),
        InnerPath::ThisPackage => InnerPath::ThisPackage,
        InnerPath::ThisPackageChild(id) => InnerPath::ThisPackageChild(id.duplicate()),
        InnerPath::Package(pid) => InnerPath::Package(pid.duplicate()),
        InnerPath::PackageChild(pid, id) => InnerPath::PackageChild(pid.duplicate(), id.duplicate()),
        InnerPath::Module(parent, id) => InnerPath::Module(Box::new(inner_duplicate(parent)), id.duplicate()),
    }
}

/// Whether the path starts at the same place as `root`.
fn inner_same_root(p: &InnerPath, root: &InnerPath) -> (r: bool)
    requires
        inner_view(*root).modules.len() == 0,
    ensures
        r == (inner_view(*p).root == inner_view(*root).root),
    decreases p,
{
    match (p, root) {
        (InnerPath::Module(parent, _), _) => inner_same_root(parent, root),
        (InnerPath::Std, InnerPath::Std) => true,
        (InnerPath::StdChild(_), InnerPath::Std) => true,
        (InnerPath::ThisPackage, InnerPath::ThisPackage) => true,
        (InnerPath::ThisPackageChild(_), InnerPath::ThisPackage) => true,
        (InnerPath::Package(a), InnerPath::Package(b)) => a.same(b),
        (InnerPath::PackageChild(a, _), InnerPath::Package(b)) => a.same(b),
        _ => false,
    }
}

/// The place where the path starts, as a path with no module.
fn inner_root(p: &InnerPath) -> (r: InnerPath)
    ensures
        inner_view(r).root == inner_view(*p).root,
        inner_view(r).modules.len() == 0,
    decreases p,
{
    match p {
        InnerPath::Std | InnerPath::StdChild(_) => InnerPath::Std,
        InnerPath::ThisPackage | InnerPath::ThisPackageChild(_) => InnerPath::ThisPackage,
        InnerPath::Package(pid) | InnerPath::PackageChild(pid, _) => InnerPath::Package(pid.duplicate()),
        InnerPath::Module(parent, _) => inner_root(parent),
    }
}

/// The modules of the path, from the top down.
fn inner_modules(p: &InnerPath) -> (r: Vec<Identifier>)
    ensures
        r@.map_values(|i: Identifier| i@) == inner_view(*p).modules,
    decreases p,
{
    let mut v: Vec<Identifier> = Vec::new();
    match p {
        InnerPath::StdChild(id) | InnerPath::ThisPackageChild(id) | InnerPath::PackageChild(_, id) => {
            v.push(id.duplicate());
        },
        InnerPath::Module(parent, id) => {
            v = inner_modules(parent);
            v.push(id.duplicate());
        },
        _ => {},
    }
    assert(v@.map_values(|i: Identifier| i@) =~= inner_view(*p).modules);
    v
}

/// The path of a module: where it starts and the modules below.
#[derive(Debug)]
pub struct Path {
    inner: InnerPath,
}

impl View for Path {
    type V = PathV;

    closed spec fn view(&self) -> PathV {
        inner_view(self.inner)
    }
}

impl Path {
    /// The root of the standard package.
    pub fn std_root() -> (r: Path)
        ensures
            r@ == (PathV { root: RootV::Std, modules: seq![] }),
    {
        Path { inner: InnerPath::Std }
    }

    /// The root of the package being built.
    pub fn this_package() -> (r: Path)
        ensures
            r@ == (PathV { root: RootV::ThisPackage, modules: seq![] }),
    {
        Path { inner: InnerPath::ThisPackage }
    }

    /// The root of a package.
    pub fn package(id: PackageId) -> (r: Path)
        ensures
            r@ == (PathV { root: RootV::Package(id@), modules: seq![] }),
    {
        Path { inner: InnerPath::Package(id) }
    }

    /// The module `id` below this one.
    pub fn child(&self, id: Identifier) -> (r: Path)
        ensures
            r@ == (PathV { root: self@.root, modules: self@.modules.push(id@) }),
    {
        let inner = match &self.inner {
            InnerPath::Std => InnerPath::StdChild(id),
            InnerPath::ThisPackage => InnerPath::ThisPackageChild(id),
            InnerPath::Package(idp) => InnerPath::PackageChild(idp.duplicate(), id),
            _ => InnerPath::Module(Box::new(inner_duplicate(&self.inner)), id),
        };
        proof {
            assert(inner_view(inner).modules =~= self@.modules.push(id@));
        }
        Path { inner }
    }

    pub fn duplicate(&self) -> (r: Path)
        ensures
            r@ == self@,
    {
        Path { inner: inner_duplicate(&self.inner) }
    }

    /// Whether both paths start at the same place and go through the same modules.
    pub fn same(&self, other: &Path) -> (r: bool)
        ensures
            r == (self@ == other@),
    {
        let root = inner_root(&other.inner);
        if !inner_same_root(&self.inner, &root) {
            return false;
        }
        let a = inner_modules(&self.inner);
        let b = inner_modules(&other.inner);
        let ghost va = a@.map_values(|i: Identifier| i@);
        let ghost vb = b@.map_values(|i: Identifier| i@);
        if a.len() != b.len() {
            assert(va.len() != vb.len());
            return false;
        }
        let mut i: usize = 0;
        while i < a.len()
            invariant
                i <= a@.len(),
                a@.len() == b@.len(),
                va == self@.modules,
                vb == other@.modules,
                va == a@.map_values(|i: Identifier| i@),
                vb == b@.map_values(|i: Identifier| i@),
                forall|j: int| 0 <= j < i ==> va[j] == vb[j],
            decreases a@.len() - i,
        {
            if !a[i].same(&b[i]) {
                assert(va[i as int] != vb[i as int]);
                return false;
            }
            i = i + 1;
        }
        assert(va =~= vb);
        true
    }
}

/// A type by the path of its module and its identifier.
#[derive(Debug)]
pub struct FQTypeId {
    path: Path,
    id: TypeIdentifier,
}

impl View for FQTypeId {
    type V = (PathV, Seq<char>);

    closed spec fn view(&self) -> (PathV, Seq<char>) {
        (self.path@, self.id@)
    }
}

impl FQTypeId {
    pub fn new(path: Path, id: TypeIdentifier) -> (r: FQTypeId)
        ensures
            r@ == (path@, id@),
    {
        FQTypeId { path, id }
    }

    /// A type of the standard package's root.
    pub fn std_type(id: TypeIdentifier) -> (r: FQTypeId)
        ensures
            r@ == (PathV { root: RootV::Std, modules: seq![] }, id@),
    {
        Self::new(Path::std_root(), id)
    }

    pub fn duplicate(&self) -> (r: FQTypeId)
        ensures
            r@ == self@,
    {
        FQTypeId { path: self.path.duplicate(), id: self.id.duplicate() }
    }

    pub fn same(&self, other: &FQTypeId) -> (r: bool)
        ensures
            r == (self@ == other@),
    {
        self.id.same(&other.id) && self.path.same(&other.path)
    }
}


/// The names of the known types are valid type identifiers.
pub proof fn lemma_known_type_names_valid(k: KnownTSymbol)
    ensures
        is_valid_name(known_text(k), true),
{
    let s = known_text(k);
    assert(tail_alnum_upto(s, s.len() as int)) by {
        assert forall|j: int| 1 <= j < s.len() implies is_ascii_alnum(#[trigger] s[j]) by {
            if j == 1 {
            } else if j == 2 {
            } else if j == 3 {
            } else if j == 4 {
            } else if j == 5 {
            } else {
            }
        }
    }
}

impl TypeIdentifier {
    /// The identifier of a type the language knows.
    pub fn known(k: KnownTSymbol) -> (r: TypeIdentifier)
        ensures
            r@ == known_text(k),
            is_valid_name(r@, true),
    {
        proof {
            lemma_known_type_names_valid(k);
        }
        TypeIdentifier { name: k.as_str().to_owned() }
    }
}

} // verus!
