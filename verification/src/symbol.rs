//! Symbols (value names, lower-case initial) and type symbols (type names,
//! upper-case initial), and the fully qualified paths that place them.
use vstd::prelude::*;

use crate::error::{Error, ErrorVec, Loc};
use crate::id::{Id, hex_lower};
use crate::keyword::{chars_equal, keyword_of, str_chars, Keyword};

verus! {

pub open spec fn is_ascii_lower(c: char) -> bool {
    'a' <= c <= 'z'
}

pub open spec fn is_ascii_upper(c: char) -> bool {
    'A' <= c <= 'Z'
}

pub open spec fn is_ascii_digit(c: char) -> bool {
    '0' <= c <= '9'
}

pub open spec fn is_ascii_alpha(c: char) -> bool {
    is_ascii_lower(c) || is_ascii_upper(c)
}

pub open spec fn is_ascii_alnum(c: char) -> bool {
    is_ascii_alpha(c) || is_ascii_digit(c)
}

pub fn char_is_lower(c: char) -> (r: bool)
    ensures
        r == is_ascii_lower(c),
{
    'a' <= c && c <= 'z'
}

pub fn char_is_upper(c: char) -> (r: bool)
    ensures
        r == is_ascii_upper(c),
{
    'A' <= c && c <= 'Z'
}

pub fn char_is_digit(c: char) -> (r: bool)
    ensures
        r == is_ascii_digit(c),
{
    '0' <= c && c <= '9'
}

pub fn char_is_alpha(c: char) -> (r: bool)
    ensures
        r == is_ascii_alpha(c),
{
    char_is_lower(c) || char_is_upper(c)
}

pub fn char_is_alnum(c: char) -> (r: bool)
    ensures
        r == is_ascii_alnum(c),
{
    char_is_alpha(c) || char_is_digit(c)
}

/// Every character of `s` after the first and before position `n` is ASCII alphanumeric.
pub open spec fn tail_alnum_upto(s: Seq<char>, n: int) -> bool {
    forall|j: int| 1 <= j < n ==> is_ascii_alnum(#[trigger] s[j])
}

/// The position of the first character after the initial one that is not ASCII
/// alphanumeric, if there is one.
pub open spec fn first_bad_tail(s: Seq<char>) -> Option<int> {
    if tail_alnum_upto(s, s.len() as int) {
        None
    } else {
        Some(
            choose|i: int|
                1 <= i < s.len() && !is_ascii_alnum(#[trigger] s[i]) && tail_alnum_upto(s, i),
        )
    }
}

/// How a name is rejected: empty, a keyword, a bad initial or a bad later character.
#[derive(Clone, Copy, Debug, PartialEq, Eq)]
pub enum NameProblem {
    Empty,
    Keyword(Keyword),
    InvalidInitial(char),
    InvalidChar(usize, char),
}

/// Why `s` is not a valid name, or `None` when it is one. Value names start with
/// a lower-case letter and may not be keywords; type names start with an
/// upper-case letter. Later characters are ASCII letters or digits.
pub open spec fn name_problem(s: Seq<char>, upper: bool) -> Option<NameProblem> {
    if s.len() == 0 {
        Some(NameProblem::Empty)
    } else if !upper && keyword_of(s).is_some() {
        Some(NameProblem::Keyword(keyword_of(s).unwrap()))
    } else if !(if upper { is_ascii_upper(s[0]) } else { is_ascii_lower(s[0]) }) {
        Some(NameProblem::InvalidInitial(s[0]))
    } else if first_bad_tail(s).is_some() {
        let i = first_bad_tail(s).unwrap();
        Some(NameProblem::InvalidChar(i as usize, s[i]))
    } else {
        None
    }
}

/// A valid name is nonempty, starts with a letter of the right case and goes on
/// with ASCII letters and digits only.
pub open spec fn is_valid_name(s: Seq<char>, upper: bool) -> bool {
    name_problem(s, upper).is_none()
}

proof fn lemma_first_bad_tail_unique(s: Seq<char>, i: int)
    requires
        1 <= i < s.len(),
        !is_ascii_alnum(s[i]),
        tail_alnum_upto(s, i),
    ensures
        first_bad_tail(s) == Some(i),
{
    assert(!tail_alnum_upto(s, s.len() as int));
    let k = choose|k: int|
        1 <= k < s.len() && !is_ascii_alnum(#[trigger] s[k]) && tail_alnum_upto(s, k);
    assert(1 <= k < s.len() && !is_ascii_alnum(s[k]) && tail_alnum_upto(s, k));
    if k < i {
        assert(is_ascii_alnum(s[k]));
    } else if i < k {
        assert(is_ascii_alnum(s[i]));
    }
}

/// Checks `v` against the rules of names of the given case.
pub fn check_name(v: &[char], upper: bool) -> (r: Option<NameProblem>)
    ensures
        r == name_problem(v@, upper),
{
    if v.len() == 0 {
        return Some(NameProblem::Empty);
    }
    if !upper {
        if let Some(k) = Keyword::parse_chars(v) {
            return Some(NameProblem::Keyword(k));
        }
    }
    let c0 = v[0];
    let initial_ok = if upper {
        char_is_upper(c0)
    } else {
        char_is_lower(c0)
    };
    if !initial_ok {
        return Some(NameProblem::InvalidInitial(c0));
    }
    let mut i: usize = 1;
    while i < v.len()
        invariant
            1 <= i <= v@.len(),
            tail_alnum_upto(v@, i as int),
            !upper ==> keyword_of(v@).is_none(),
            if upper {
                is_ascii_upper(v@[0])
            } else {
                is_ascii_lower(v@[0])
            },
        decreases v@.len() - i,
    {
        let c = v[i];
        if !char_is_alnum(c) {
            proof {
                lemma_first_bad_tail_unique(v@, i as int);
            }
            return Some(NameProblem::InvalidChar(i, c));
        }
        i = i + 1;
    }
    None
}

/// The name of a value: starts with a lower-case letter, is not a keyword.
#[derive(Clone, Debug, PartialEq, Eq)]
pub struct Symbol {
    name: String,
}

impl View for Symbol {
    type V = Seq<char>;

    closed spec fn view(&self) -> Seq<char> {
        self.name@
    }
}

/// The error reported for a rejected value name.
pub open spec fn symbol_error(p: NameProblem) -> Error {
    match p {
        NameProblem::Empty => Error::SymbolEmpty,
        NameProblem::Keyword(k) => Error::SymbolKeywordFound(k),
        NameProblem::InvalidInitial(c) => Error::SymbolInvalidInitial(c),
        NameProblem::InvalidChar(i, c) => Error::SymbolInvalidChar(i, c),
    }
}

/// The error reported for a rejected type name.
pub open spec fn tsymbol_error(p: NameProblem) -> Error {
    match p {
        NameProblem::Empty => Error::TSymbolEmpty,
        NameProblem::Keyword(k) => Error::SymbolKeywordFound(k),
        NameProblem::InvalidInitial(c) => Error::TSymbolInvalidInitial(c),
        NameProblem::InvalidChar(i, c) => Error::SymbolInvalidChar(i, c),
    }
}

impl Symbol {
    /// Validates `name` as a value name.
    pub fn new(loc: &Loc, name: &str) -> (r: Result<Symbol, ErrorVec>)
        ensures
            name_problem(name@, false) is None ==> (r matches Ok(s) && s@ == name@),
            name_problem(name@, false) matches Some(p) ==> (r matches Err(e) && e@ == seq![
                (*loc, symbol_error(p)),
            ]),
    {
        let v = str_chars(name);
        match check_name(&v, false) {
            None => Ok(Symbol { name: name.to_owned() }),
            Some(p) => Err(ErrorVec::single(loc, Self::error_of(p))),
        }
    }

    fn error_of(p: NameProblem) -> (r: Error)
        ensures
            r == symbol_error(p),
    {
        match p {
            NameProblem::Empty => Error::SymbolEmpty,
            NameProblem::Keyword(k) => Error::SymbolKeywordFound(k),
            NameProblem::InvalidInitial(c) => Error::SymbolInvalidInitial(c),
            NameProblem::InvalidChar(i, c) => Error::SymbolInvalidChar(i, c),
        }
    }

    /// The text of the symbol.
    pub fn as_str(&self) -> (r: &str)
        ensures
            r@ == self@,
    {
        self.name.as_str()
    }

    /// A copy of the symbol.
    pub fn duplicate(&self) -> (r: Symbol)
        ensures
            r@ == self@,
    {
        Symbol { name: self.name.clone() }
    }

    /// Whether both symbols have the same text.
    pub fn same(&self, other: &Symbol) -> (r: bool)
        ensures
            r == (self@ == other@),
    {
        self.name == other.name
    }
}

/// The type symbols the language knows without any definition.
#[derive(Clone, Copy, Debug, PartialEq, Eq, Structural)]
pub enum KnownTSymbol {
    /// The type `None`.
    Unit,
    True,
    False,
    Boolean,
    Integer,
}

pub open spec fn known_text(k: KnownTSymbol) -> Seq<char> {
    match k {
        KnownTSymbol::Unit => seq!['N', 'o', 'n', 'e'],
        KnownTSymbol::True => seq!['T', 'r', 'u', 'e'],
        KnownTSymbol::False => seq!['F', 'a', 'l', 's', 'e'],
        KnownTSymbol::Boolean => seq!['B', 'o', 'o', 'l', 'e', 'a', 'n'],
        KnownTSymbol::Integer => seq!['I', 'n', 't', 'e', 'g', 'e', 'r'],
    }
}

impl KnownTSymbol {
    /// How the type symbol is spelled.
    pub fn as_str(&self) -> (r: &'static str)
        ensures
            r@ == known_text(*self),
    {
        match self {
            KnownTSymbol::Unit => {
                proof {
                    reveal_strlit("None");
                }
                "None"
            },
            KnownTSymbol::True => {
                proof {
                    reveal_strlit("True");
                }
                "True"
            },
            KnownTSymbol::False => {
                proof {
                    reveal_strlit("False");
                }
                "False"
            },
            KnownTSymbol::Boolean => {
                proof {
                    reveal_strlit("Boolean");
                }
                "Boolean"
            },
            KnownTSymbol::Integer => {
                proof {
                    reveal_strlit("Integer");
                }
                "Integer"
            },
        }
    }
}

/// The known type symbol spelled `s`, if any.
pub open spec fn known_of(s: Seq<char>) -> Option<KnownTSymbol> {
    if s == known_text(KnownTSymbol::Unit) {
        Some(KnownTSymbol::Unit)
    } else if s == known_text(KnownTSymbol::True) {
        Some(KnownTSymbol::True)
    } else if s == known_text(KnownTSymbol::False) {
        Some(KnownTSymbol::False)
    } else if s == known_text(KnownTSymbol::Boolean) {
        Some(KnownTSymbol::Boolean)
    } else if s == known_text(KnownTSymbol::Integer) {
        Some(KnownTSymbol::Integer)
    } else {
        None
    }
}

fn known_parse(v: &[char]) -> (r: Option<KnownTSymbol>)
    ensures
        r == known_of(v@),
{
    if chars_equal(v, &['N', 'o', 'n', 'e']) {
        Some(KnownTSymbol::Unit)
    } else if chars_equal(v, &['T', 'r', 'u', 'e']) {
        Some(KnownTSymbol::True)
    } else if chars_equal(v, &['F', 'a', 'l', 's', 'e']) {
        Some(KnownTSymbol::False)
    } else if chars_equal(v, &['B', 'o', 'o', 'l', 'e', 'a', 'n']) {
        Some(KnownTSymbol::Boolean)
    } else if chars_equal(v, &['I', 'n', 't', 'e', 'g', 'e', 'r']) {
        Some(KnownTSymbol::Integer)
    } else {
        None
    }
}

/// The name of a type: either one the language knows, or one that starts with
/// an upper-case letter and goes on with ASCII letters and digits.
#[derive(Clone, Debug, PartialEq, Eq)]
pub enum TSymbol {
    Known(KnownTSymbol),
    Other(String),
}

impl View for TSymbol {
    type V = Seq<char>;

    open spec fn view(&self) -> Seq<char> {
        match self {
            TSymbol::Known(k) => known_text(*k),
            TSymbol::Other(s) => s@,
        }
    }
}

/// A type symbol value is well formed when a known name is always held as `Known`.
pub open spec fn tsymbol_wf(t: TSymbol) -> bool {
    match t {
        TSymbol::Known(_) => true,
        TSymbol::Other(s) => known_of(s@).is_none() && is_valid_name(s@, true),
    }
}

impl TSymbol {
    /// Validates `name` as a type name.
    pub fn new(loc: &Loc, name: &str) -> (r: Result<TSymbol, ErrorVec>)
        ensures
            known_of(name@) matches Some(k) ==> r == Ok::<TSymbol, ErrorVec>(TSymbol::Known(k)),
            known_of(name@) is None && name_problem(name@, true) is None ==> (r matches Ok(t)
                && t@ == name@ && tsymbol_wf(t)),
            known_of(name@) is None ==> (name_problem(name@, true) matches Some(p) ==> (r matches Err(
                e,
            ) && e@ == seq![(*loc, tsymbol_error(p))])),
    {
        let v = str_chars(name);
        if let Some(k) = known_parse(&v) {
            return Ok(TSymbol::Known(k));
        }
        match check_name(&v, true) {
            None => Ok(TSymbol::Other(name.to_owned())),
            Some(p) => Err(ErrorVec::single(loc, Self::error_of(p))),
        }
    }

    fn error_of(p: NameProblem) -> (r: Error)
        ensures
            r == tsymbol_error(p),
    {
        match p {
            NameProblem::Empty => Error::TSymbolEmpty,
            NameProblem::Keyword(k) => Error::SymbolKeywordFound(k),
            NameProblem::InvalidInitial(c) => Error::TSymbolInvalidInitial(c),
            NameProblem::InvalidChar(i, c) => Error::SymbolInvalidChar(i, c),
        }
    }

    /// A copy of the type symbol.
    pub fn duplicate(&self) -> (r: TSymbol)
        ensures
            r@ == self@,
            tsymbol_wf(*self) ==> tsymbol_wf(r),
    {
        match self {
            TSymbol::Known(k) => TSymbol::Known(*k),
            TSymbol::Other(s) => TSymbol::Other(s.clone()),
        }
    }

    /// The text of the type symbol.
    pub fn text(&self) -> (r: String)
        ensures
            r@ == self@,
    {
        match self {
            TSymbol::Known(k) => k.as_str().to_owned(),
            TSymbol::Other(s) => s.clone(),
        }
    }

    /// Whether both type symbols are spelled the same.
    pub fn same_text(&self, other: &TSymbol) -> (r: bool)
        ensures
            r == (self@ == other@),
    {
        self.text() == other.text()
    }

    /// The known type symbol this one spells, if any.
    pub fn known(&self) -> (r: Option<KnownTSymbol>)
        ensures
            r == known_of(self@),
    {
        match self {
            TSymbol::Known(k) => {
                proof {
                    lemma_known_of_text(*k);
                }
                Some(*k)
            },
            TSymbol::Other(s) => {
                let v = str_chars(s.as_str());
                known_parse(&v)
            },
        }
    }

    pub fn none() -> (r: TSymbol)
        ensures
            r == TSymbol::Known(KnownTSymbol::Unit),
    {
        TSymbol::Known(KnownTSymbol::Unit)
    }

    /// Whether both type symbols have the same text.
    pub fn same(&self, other: &TSymbol) -> (r: bool)
        requires
            tsymbol_wf(*self),
            tsymbol_wf(*other),
        ensures
            r == (self@ == other@),
    {
        match (self, other) {
            (TSymbol::Known(a), TSymbol::Known(b)) => {
                proof {
                    lemma_known_text_injective(*a, *b);
                }
                *a == *b
            },
            (TSymbol::Other(a), TSymbol::Other(b)) => *a == *b,
            (TSymbol::Known(a), TSymbol::Other(b)) => {
                proof {
                    lemma_known_of_text(*a);
                }
                false
            },
            (TSymbol::Other(a), TSymbol::Known(b)) => {
                proof {
                    lemma_known_of_text(*b);
                }
                false
            },
        }
    }
}

proof fn lemma_known_of_text(k: KnownTSymbol)
    ensures
        known_of(known_text(k)) == Some(k),
{
    assert(known_text(KnownTSymbol::Unit) != known_text(KnownTSymbol::True)) by {
        assert(known_text(KnownTSymbol::Unit)[0] != known_text(KnownTSymbol::True)[0]);
    }
    assert(known_text(KnownTSymbol::Unit) != known_text(KnownTSymbol::False)) by {
        assert(known_text(KnownTSymbol::Unit).len() != known_text(KnownTSymbol::False).len());
    }
    assert(known_text(KnownTSymbol::True) != known_text(KnownTSymbol::False)) by {
        assert(known_text(KnownTSymbol::True).len() != known_text(KnownTSymbol::False).len());
    }
    assert(known_text(KnownTSymbol::Boolean) != known_text(KnownTSymbol::Integer)) by {
        assert(known_text(KnownTSymbol::Boolean)[0] != known_text(KnownTSymbol::Integer)[0]);
    }
}

proof fn lemma_known_text_injective(a: KnownTSymbol, b: KnownTSymbol)
    ensures
        (known_text(a) == known_text(b)) == (a == b),
{
    lemma_known_of_text(a);
    lemma_known_of_text(b);
}

/// Where a definition is visible from.
#[derive(Clone, Copy, Debug, PartialEq, Eq, Structural)]
pub enum Visibility {
    Module,
    Package,
    Exported,
}

/// A package: the standard one, the one being built, or another by its id.
#[derive(Clone, Debug, PartialEq, Eq)]
pub enum Pkg {
    Std,
    Local,
    External(Id),
}

/// The view of a package: which one, and the bytes of an external one's id.
pub ghost enum PkgV {
    Std,
    Local,
    External(Seq<u8>),
}

impl View for Pkg {
    type V = PkgV;

    open spec fn view(&self) -> PkgV {
        match self {
            Pkg::Std => PkgV::Std,
            Pkg::Local => PkgV::Local,
            Pkg::External(id) => PkgV::External(id.id.bytes@),
        }
    }
}

impl Pkg {
    /// The path of a module in this package.
    pub fn path(&self, path: Path) -> (r: FQPath)
        ensures
            r.pkg@ == self@,
            r.path@ == path@,
    {
        FQPath { pkg: self.duplicate(), path }
    }

    /// The root module of this package.
    pub fn empty(&self) -> (r: FQPath)
        ensures
            r.pkg@ == self@,
            r.path@.len() == 0,
    {
        self.path(Path::empty())
    }

    pub fn duplicate(&self) -> (r: Pkg)
        ensures
            r@ == self@,
    {
        match self {
            Pkg::Std => Pkg::Std,
            Pkg::Local => Pkg::Local,
            Pkg::External(id) => Pkg::External(*id),
        }
    }

    /// Whether both are the same package.
    pub fn same(&self, other: &Pkg) -> (r: bool)
        ensures
            r == (self@ == other@),
    {
        match (self, other) {
            (Pkg::Std, Pkg::Std) => true,
            (Pkg::Local, Pkg::Local) => true,
            (Pkg::External(a), Pkg::External(b)) => same_id(a, b),
            _ => false,
        }
    }

    /// How a program spells the package.
    pub fn to_text(&self) -> (r: String)
        ensures
            r@ == pkg_text(self@),
    {
        match self {
            Pkg::Std => {
                proof {
                    reveal_strlit("std");
                }
                "std".to_owned()
            },
            Pkg::Local => {
                proof {
                    reveal_strlit("pkg");
                }
                "pkg".to_owned()
            },
            Pkg::External(id) => {
                proof {
                    reveal_strlit("pkg(");
                    reveal_strlit(")");
                }
                let mut s = "pkg(".to_owned();
                push_str(&mut s, &id.as_string());
                push_str(&mut s, ")");
                s
            },
        }
    }
}

/// Whether both ids have the same bytes.
fn same_id(a: &Id, b: &Id) -> (r: bool)
    ensures
        r == (a.id.bytes@ == b.id.bytes@),
{
    let mut i: usize = 0;
    while i < 32
        invariant
            i <= 32,
            a.id.bytes@.len() == 32,
            b.id.bytes@.len() == 32,
            forall|j: int| 0 <= j < i ==> a.id.bytes@[j] == b.id.bytes@[j],
        decreases 32 - i,
    {
        if a.id.bytes[i] != b.id.bytes[i] {
            assert(a.id.bytes@[i as int] != b.id.bytes@[i as int]);
            return false;
        }
        i = i + 1;
    }
    assert(a.id.bytes@ =~= b.id.bytes@);
    true
}

/// How a program spells a package.
pub open spec fn pkg_text(p: PkgV) -> Seq<char> {
    match p {
        PkgV::Std => seq!['s', 't', 'd'],
        PkgV::Local => seq!['p', 'k', 'g'],
        PkgV::External(bytes) => seq!['p', 'k', 'g', '('] + hex_lower(bytes) + seq![')'],
    }
}

/// Calls `String::push_str`, which appends the text to the end of the string.
#[verifier::external_body]
fn push_str(s: &mut String, t: &str)
    ensures
        final(s)@ == old(s)@ + t@,
{
    s.push_str(t);
}

pub open spec fn segments_view(l: Seq<Symbol>) -> Seq<Seq<char>> {
    l.map_values(|s: Symbol| s@)
}

/// The path of a module inside its package: the names from the root down.
#[derive(Clone, Debug, PartialEq, Eq)]
pub struct Path {
    segments: Vec<Symbol>,
}

impl View for Path {
    type V = Seq<Seq<char>>;

    closed spec fn view(&self) -> Seq<Seq<char>> {
        segments_view(self.segments@)
    }
}

/// The segments of a path, joined by `::`.
pub open spec fn path_text(p: Seq<Seq<char>>) -> Seq<char>
    decreases p.len(),
{
    if p.len() == 0 {
        seq![]
    } else if p.len() == 1 {
        p[0]
    } else {
        path_text(p.drop_last()) + seq![':', ':'] + p.last()
    }
}

impl Path {
    pub fn new(path: Vec<Symbol>) -> (r: Path)
        ensures
            r@ == segments_view(path@),
    {
        Path { segments: path }
    }

    /// The root path.
    pub fn empty() -> (r: Path)
        ensures
            r@.len() == 0,
    {
        let r = Path { segments: Vec::new() };
        assert(r@ =~= Seq::<Seq<char>>::empty());
        r
    }

    pub fn single(symbol: Symbol) -> (r: Path)
        ensures
            r@ == seq![symbol@],
    {
        let mut segments = Vec::new();
        segments.push(symbol);
        let r = Path { segments };
        assert(r@ =~= seq![symbol@]);
        r
    }

    pub fn is_empty(&self) -> (r: bool)
        ensures
            r == (self@.len() == 0),
    {
        self.segments.len() == 0
    }

    /// Whether both are the same path.
    pub fn same(&self, other: &Path) -> (r: bool)
        ensures
            r == (self@ == other@),
    {
        if self.segments.len() != other.segments.len() {
            assert(self@.len() != other@.len());
            return false;
        }
        let mut i: usize = 0;
        while i < self.segments.len()
            invariant
                i <= self.segments@.len(),
                self.segments@.len() == other.segments@.len(),
                forall|j: int| 0 <= j < i ==> self.segments@[j]@ == other.segments@[j]@,
            decreases self.segments@.len() - i,
        {
            if !self.segments[i].same(&other.segments[i]) {
                assert(self@[i as int] != other@[i as int]);
                return false;
            }
            i = i + 1;
        }
        assert(self@ =~= other@);
        true
    }

    /// The segments joined by `::`.
    pub fn to_text(&self) -> (r: String)
        ensures
            r@ == path_text(self@),
    {
        let mut r = String::new();
        let mut i: usize = 0;
        proof {
            reveal_strlit("::");
            assert(self@.take(0) =~= Seq::<Seq<char>>::empty());
        }
        while i < self.segments.len()
            invariant
                i <= self.segments@.len(),
                r@ == path_text(self@.take(i as int)),
            decreases self.segments@.len() - i,
        {
            proof {
                reveal_strlit("::");
                assert(self@.take(i + 1).drop_last() =~= self@.take(i as int));
            }
            if i > 0 {
                push_str(&mut r, "::");
            } else {
                assert(r@ =~= seq![]);
            }
            push_str(&mut r, self.segments[i].as_str());
            proof {
                if i == 0 {
                    assert(r@ =~= self@[0]);
                }
            }
            i = i + 1;
        }
        assert(self@.take(i as int) =~= self@);
        r
    }
}

/// The path of a module: its package and its path inside it.
#[derive(Clone, Debug, PartialEq, Eq)]
pub struct FQPath {
    pub pkg: Pkg,
    pub path: Path,
}

/// Whether code in `from` can see a definition of `to` with `visibility`:
/// an exported one from anywhere, one of the package from the same package,
/// one of the module from the same module.
pub open spec fn can_see(from: (PkgV, Seq<Seq<char>>), visibility: Visibility, to: (PkgV, Seq<Seq<char>>)) -> bool {
    match visibility {
        Visibility::Exported => true,
        Visibility::Package => from.0 == to.0,
        Visibility::Module => from.0 == to.0 && from.1 == to.1,
    }
}

impl FQPath {
    /// The root module of the standard package.
    pub fn std_empty() -> (r: FQPath)
        ensures
            r.pkg@ == PkgV::Std,
            r.path@.len() == 0,
    {
        Pkg::Std.empty()
    }

    pub fn is_empty(&self) -> (r: bool)
        ensures
            r == (self.path@.len() == 0),
    {
        self.path.is_empty()
    }

    pub fn duplicate(&self) -> (r: FQPath)
        ensures
            r.pkg@ == self.pkg@,
            r.path@ == self.path@,
    {
        FQPath { pkg: self.pkg.duplicate(), path: Path { segments: copy_symbols(&self.path.segments) } }
    }

    /// The value `symbol` of this module.
    pub fn fq_sym(&self, symbol: Symbol) -> (r: FQSym)
        ensures
            r.path.pkg@ == self.pkg@,
            r.path.path@ == self.path@,
            r.enclosing is None,
            r.symbol@ == symbol@,
    {
        FQ { path: self.duplicate(), enclosing: None, symbol }
    }

    /// The type `symbol` of this module.
    pub fn fq_type(&self, symbol: TSymbol) -> (r: FQType)
        ensures
            r.path.pkg@ == self.pkg@,
            r.path.path@ == self.path@,
            r.enclosing is None,
            r.symbol@ == symbol@,
    {
        FQ { path: self.duplicate(), enclosing: None, symbol }
    }

    /// Whether code here can see a definition in `path` with `visibility`.
    pub fn can_see(&self, visibility: Visibility, path: &FQPath) -> (r: bool)
        ensures
            r == can_see((self.pkg@, self.path@), visibility, (path.pkg@, path.path@)),
    {
        match visibility {
            Visibility::Exported => true,
            Visibility::Package => self.pkg.same(&path.pkg),
            Visibility::Module => self.pkg.same(&path.pkg) && self.path.same(&path.path),
        }
    }

    /// The package, then the path.
    pub fn to_text(&self) -> (r: String)
        ensures
            r@ == pkg_text(self.pkg@) + path_text(self.path@),
    {
        let mut r = self.pkg.to_text();
        push_str(&mut r, &self.path.to_text());
        r
    }
}

fn copy_symbols(l: &Vec<Symbol>) -> (r: Vec<Symbol>)
    ensures
        segments_view(r@) == segments_view(l@),
{
    let mut r: Vec<Symbol> = Vec::new();
    let mut i: usize = 0;
    while i < l.len()
        invariant
            i <= l@.len(),
            segments_view(r@) == segments_view(l@).take(i as int),
        decreases l@.len() - i,
    {
        let x = l[i].duplicate();
        let ghost before = r@;
        r.push(x);
        assert(r@ == before.push(x));
        assert(segments_view(r@) =~= segments_view(before).push(x@));
        assert(segments_view(r@) =~= segments_view(l@).take(i + 1));
        i = i + 1;
    }
    assert(segments_view(l@).take(i as int) =~= segments_view(l@));
    r
}

/// A name defined in a module, possibly inside a type.
#[derive(Clone, Debug, PartialEq, Eq)]
pub struct FQ<T> {
    pub path: FQPath,
    pub enclosing: Option<TSymbol>,
    pub symbol: T,
}

pub type FQSym = FQ<Symbol>;

pub type FQType = FQ<TSymbol>;

impl<T> FQ<T> {
    /// Whether the name is not inside a type.
    pub fn is_top_level(&self) -> (r: bool)
        ensures
            r == (self.enclosing is None),
    {
        self.enclosing.is_none()
    }

    /// Whether this name can see `symbol`, defined with `visibility`.
    pub fn can_see<O>(&self, visibility: Visibility, symbol: &FQ<O>) -> (r: bool)
        ensures
            r == can_see((self.path.pkg@, self.path.path@), visibility, (symbol.path.pkg@, symbol.path.path@)),
    {
        self.path.can_see(visibility, &symbol.path)
    }
}


/// The package of a module, as the syntax tree names it.
pub type Lib = Pkg;

/// The path of a module inside its package, as the syntax tree names it.
pub type ModulePath = Path;


/// What a path made of some symbols is: no symbol makes the empty path, one
/// symbol the path of that symbol, and two paths are the same exactly when
/// they have the same symbols, one by one.
pub proof fn law_path_segments(v: Seq<Symbol>, w: Seq<Symbol>, s: Symbol)
    ensures
        segments_view(Seq::<Symbol>::empty()) == Seq::<Seq<char>>::empty(),
        segments_view(seq![s]) == seq![s@],
        segments_view(v).len() == 0 <==> v.len() == 0,
        segments_view(v) == segments_view(w) <==> (v.len() == w.len() && forall|i: int|
            0 <= i < v.len() ==> #[trigger] v[i]@ == w[i]@),
{
    assert(segments_view(Seq::<Symbol>::empty()) =~= Seq::<Seq<char>>::empty());
    assert(segments_view(seq![s]) =~= seq![s@]);
    if v.len() == w.len() && (forall|i: int| 0 <= i < v.len() ==> #[trigger] v[i]@ == w[i]@) {
        assert(segments_view(v) =~= segments_view(w));
    }
    if segments_view(v) == segments_view(w) {
        assert forall|i: int| 0 <= i < v.len() implies #[trigger] v[i]@ == w[i]@ by {
            assert(segments_view(v)[i] == v[i]@);
            assert(segments_view(w)[i] == w[i]@);
        }
    }
}

} // verus!
