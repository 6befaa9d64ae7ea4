//! Source locations and the errors of every phase.
use vstd::prelude::*;

use crate::keyword::Keyword;
use crate::symbol::{Symbol, TSymbol};
use crate::tokenizer::Enclosure;
use crate::types::{Type, TypeV};

verus! {

/// Where something comes from: nowhere in particular, or a byte offset in the input.
#[derive(Clone, Copy, Debug)]
pub enum Loc {
    Nowhere,
    Input(usize),
}

impl Loc {
    pub fn none() -> (r: Loc)
        ensures
            r == Loc::Nowhere,
    {
        Loc::Nowhere
    }

    pub fn input(pos: usize) -> (r: Loc)
        ensures
            r == Loc::Input(pos),
    {
        Loc::Input(pos)
    }

    /// The byte offset, if the location is in the input.
    pub fn pos(&self) -> (r: Option<usize>)
        ensures
            r == (match *self {
                Loc::Nowhere => None,
                Loc::Input(p) => Some(p),
            }),
    {
        match self {
            Loc::Nowhere => None,
            Loc::Input(p) => Some(*p),
        }
    }

    /// Wraps `it` with this location.
    pub fn wrap<T>(&self, it: T) -> (r: L<T>)
        ensures
            r.loc == *self,
            r.it == it,
    {
        L { loc: *self, it }
    }

    /// A failure holding one error at this location.
    pub fn err<T>(&self, error: Error) -> (r: Result<T, ErrorVec>)
        ensures
            r matches Err(e) && e@ == seq![(*self, error)],
    {
        Err(ErrorVec::single(self, error))
    }

    /// A failure holding one error at this location.
    pub fn to_err<T>(self, error: Error) -> (r: Result<T, ErrorVec>)
        ensures
            r matches Err(e) && e@ == seq![(self, error)],
    {
        self.err(error)
    }

    /// Wraps `it` with this location.
    pub fn to_wrap<T>(self, it: T) -> (r: L<T>)
        ensures
            r.loc == self,
            r.it == it,
    {
        L { loc: self, it }
    }
}

/// Locations play no part in comparisons: two values that differ only in
/// where they come from are equal.
impl PartialEq for Loc {
    fn eq(&self, other: &Self) -> (r: bool) {
        true
    }
}

impl Eq for Loc {

}

impl vstd::std_specs::cmp::PartialEqSpecImpl for Loc {
    open spec fn obeys_eq_spec() -> bool {
        true
    }

    open spec fn eq_spec(&self, other: &Self) -> bool {
        true
    }
}

/// A value together with its location.
#[derive(Clone, Debug, PartialEq, Eq)]
pub struct L<T> {
    pub loc: Loc,
    pub it: T,
}

impl<T> L<T> {
    /// `error`, at the location of this value.
    pub fn error(&self, error: Error) -> (r: L<Error>)
        ensures
            r.loc == self.loc,
            r.it == error,
    {
        self.loc.wrap(error)
    }

    /// A failure holding `error` at the location of this value.
    pub fn err<R>(&self, error: Error) -> (r: Result<R, ErrorVec>)
        ensures
            r matches Err(e) && e@ == seq![(self.loc, error)],
    {
        self.loc.err(error)
    }
}

/// Everything that can go wrong, in any phase.
#[derive(Clone, Debug, PartialEq, Eq)]
pub enum Error {
    // Tokenizer
    UnexpectedChar(char),
    // Lexer
    InvalidClose(Enclosure),
    UnexpectedToken,
    // Parser
    ExpressionExpected,
    LValueExpected,
    AssignmentExpected,
    EndOfItemExpected,
    KeywordExpected(Keyword),
    CloseExpected(Enclosure),
    TSymbolAfterTypeExpected,
    ExpressionNotExpected,
    ParsingError,
    // Symbols
    SymbolEmpty,
    TSymbolEmpty,
    SymbolKeywordFound(Keyword),
    SymbolInvalidInitial(char),
    TSymbolInvalidInitial(char),
    SymbolInvalidChar(usize, char),
    // Type checking
    UnknownSymbol(Symbol),
    UnknownLocalSymbol(Symbol),
    DuplicateSymbol(Symbol),
    CircularDefinition(Symbol),
    UnknownLocalType(TSymbol),
    DuplicateType(TSymbol),
    DuplicateLocalSymbol(Symbol),
    TypeMismatch(Type, Type),
    SingletonExpected(Type),
    InvalidType,
    // Runtime
    DivisionByZero,
    NotImplemented,
}

/// The mathematical view of an error: names and types by their views.
pub ghost enum ErrV {
    /// An error that holds no name and no type.
    Other(Error),
    UnknownSymbol(Seq<char>),
    UnknownLocalSymbol(Seq<char>),
    DuplicateSymbol(Seq<char>),
    CircularDefinition(Seq<char>),
    UnknownLocalType(Seq<char>),
    DuplicateType(Seq<char>),
    DuplicateLocalSymbol(Seq<char>),
    TypeMismatch(TypeV, TypeV),
    SingletonExpected(TypeV),
}

impl View for Error {
    type V = ErrV;

    open spec fn view(&self) -> ErrV {
        match self {
            Error::UnknownSymbol(s) => ErrV::UnknownSymbol(s@),
            Error::UnknownLocalSymbol(s) => ErrV::UnknownLocalSymbol(s@),
            Error::DuplicateSymbol(s) => ErrV::DuplicateSymbol(s@),
            Error::CircularDefinition(s) => ErrV::CircularDefinition(s@),
            Error::UnknownLocalType(t) => ErrV::UnknownLocalType(t@),
            Error::DuplicateType(t) => ErrV::DuplicateType(t@),
            Error::DuplicateLocalSymbol(s) => ErrV::DuplicateLocalSymbol(s@),
            Error::TypeMismatch(a, b) => ErrV::TypeMismatch(a@, b@),
            Error::SingletonExpected(t) => ErrV::SingletonExpected(t@),
            _ => ErrV::Other(*self),
        }
    }
}

/// Errors with their locations, by their views.
pub open spec fn errs_view(e: Seq<(Loc, Error)>) -> Seq<(Loc, ErrV)> {
    e.map_values(|p: (Loc, Error)| (p.0, p.1@))
}

/// One or more errors, in the order they were found.
#[derive(Clone, Debug)]
pub struct ErrorVec {
    pub errors: Vec<L<Error>>,
}

impl View for ErrorVec {
    type V = Seq<(Loc, Error)>;

    open spec fn view(&self) -> Seq<(Loc, Error)> {
        self.errors@.map_values(|l: L<Error>| (l.loc, l.it))
    }
}

impl ErrorVec {
    pub fn single(loc: &Loc, error: Error) -> (r: ErrorVec)
        ensures
            r@ == seq![(*loc, error)],
    {
        let mut errors = Vec::new();
        errors.push(L { loc: *loc, it: error });
        let r = ErrorVec { errors };
        assert(r@ =~= seq![(*loc, error)]);
        r
    }

    /// Appends the errors of `other` after those of `self`.
    pub fn append(&mut self, other: ErrorVec)
        ensures
            final(self)@ == old(self)@ + other@,
    {
        let mut o = other.errors;
        let ghost before = self.errors@;
        self.errors.append(&mut o);
        assert(self@ =~= old(self)@ + other@);
    }

    /// The number of errors.
    pub fn len(&self) -> (r: usize)
        ensures
            r == self@.len(),
    {
        self.errors.len()
    }

    /// Whether one of the errors is `error`, wherever it stands.
    pub fn contains(&self, error: &Error) -> (r: bool)
        ensures
            r == exists|i: int| 0 <= i < self@.len() && #[trigger] self@[i].1@ == error@,
    {
        let mut i: usize = 0;
        while i < self.errors.len()
            invariant
                i <= self.errors@.len(),
                forall|j: int| 0 <= j < i ==> #[trigger] self@[j].1@ != error@,
            decreases self.errors@.len() - i,
        {
            if same_error(&self.errors[i].it, error) {
                assert(self@[i as int].1@ == error@);
                return true;
            }
            i = i + 1;
        }
        false
    }
}

/// Whether two errors are the same, names and types compared by their views.
pub fn same_error(a: &Error, b: &Error) -> (r: bool)
    ensures
        r == (a@ == b@),
{
    match (a, b) {
        (Error::UnexpectedChar(x), Error::UnexpectedChar(y)) => *x == *y,
        (Error::InvalidClose(x), Error::InvalidClose(y)) => *x == *y,
        (Error::UnexpectedToken, Error::UnexpectedToken) => true,
        (Error::ExpressionExpected, Error::ExpressionExpected) => true,
        (Error::LValueExpected, Error::LValueExpected) => true,
        (Error::AssignmentExpected, Error::AssignmentExpected) => true,
        (Error::EndOfItemExpected, Error::EndOfItemExpected) => true,
        (Error::KeywordExpected(x), Error::KeywordExpected(y)) => *x == *y,
        (Error::CloseExpected(x), Error::CloseExpected(y)) => *x == *y,
        (Error::TSymbolAfterTypeExpected, Error::TSymbolAfterTypeExpected) => true,
        (Error::ExpressionNotExpected, Error::ExpressionNotExpected) => true,
        (Error::ParsingError, Error::ParsingError) => true,
        (Error::SymbolEmpty, Error::SymbolEmpty) => true,
        (Error::TSymbolEmpty, Error::TSymbolEmpty) => true,
        (Error::SymbolKeywordFound(x), Error::SymbolKeywordFound(y)) => *x == *y,
        (Error::SymbolInvalidInitial(x), Error::SymbolInvalidInitial(y)) => *x == *y,
        (Error::TSymbolInvalidInitial(x), Error::TSymbolInvalidInitial(y)) => *x == *y,
        (Error::SymbolInvalidChar(i, x), Error::SymbolInvalidChar(j, y)) => *i == *j && *x == *y,
        (Error::UnknownSymbol(x), Error::UnknownSymbol(y)) => x.same(y),
        (Error::UnknownLocalSymbol(x), Error::UnknownLocalSymbol(y)) => x.same(y),
        (Error::DuplicateSymbol(x), Error::DuplicateSymbol(y)) => x.same(y),
        (Error::CircularDefinition(x), Error::CircularDefinition(y)) => x.same(y),
        (Error::UnknownLocalType(x), Error::UnknownLocalType(y)) => x.same_text(y),
        (Error::DuplicateType(x), Error::DuplicateType(y)) => x.same_text(y),
        (Error::DuplicateLocalSymbol(x), Error::DuplicateLocalSymbol(y)) => x.same(y),
        (Error::TypeMismatch(x1, x2), Error::TypeMismatch(y1, y2)) => x1.same(y1) && x2.same(y2),
        (Error::SingletonExpected(x), Error::SingletonExpected(y)) => x.same(y),
        (Error::InvalidType, Error::InvalidType) => true,
        (Error::DivisionByZero, Error::DivisionByZero) => true,
        (Error::NotImplemented, Error::NotImplemented) => true,
        _ => false,
    }
}

/// Accumulates errors; empty until the first one is added.
pub struct Errors {
    pub errors: Option<ErrorVec>,
}

impl View for Errors {
    type V = Seq<(Loc, Error)>;

    open spec fn view(&self) -> Seq<(Loc, Error)> {
        match self.errors {
            None => seq![],
            Some(e) => e@,
        }
    }
}

/// A well formed accumulator never holds an empty error vector.
pub open spec fn errors_wf(e: Errors) -> bool {
    e.errors matches Some(v) ==> v@.len() > 0
}

impl Errors {
    pub fn new() -> (r: Errors)
        ensures
            r@ == Seq::<(Loc, Error)>::empty(),
            errors_wf(r),
    {
        Errors { errors: None }
    }

    pub fn add(&mut self, loc: &Loc, error: Error)
        ensures
            final(self)@ == old(self)@.push((*loc, error)),
            errors_wf(*final(self)),
    {
        match self.errors.take() {
            Some(mut e) => {
                let ghost before = e@;
                e.append(ErrorVec::single(loc, error));
                assert(e@ =~= before.push((*loc, error)));
                self.errors = Some(e);
            },
            None => {
                let e = ErrorVec::single(loc, error);
                assert(e@ =~= seq![(*loc, error)]);
                self.errors = Some(e);
            },
        }
    }

    /// Keeps the value of a success, or adds the errors of a failure.
    pub fn add_result<T>(&mut self, result: Result<T, ErrorVec>) -> (r: Option<T>)
        requires
            errors_wf(*old(self)),
            result matches Err(e) ==> e@.len() > 0,
        ensures
            errors_wf(*final(self)),
            result matches Ok(v) ==> r == Some(v) && final(self)@ == old(self)@,
            result matches Err(e) ==> r is None && final(self)@ == old(self)@ + e@,
    {
        match result {
            Ok(v) => Some(v),
            Err(e) => {
                match self.errors.take() {
                    Some(mut mine) => {
                        mine.append(e);
                        self.errors = Some(mine);
                    },
                    None => {
                        assert(e@ =~= seq![] + e@);
                        self.errors = Some(e);
                    },
                }
                None
            },
        }
    }

    /// `value` when no error was added, else the errors.
    pub fn to_result<T>(self, value: T) -> (r: Result<T, ErrorVec>)
        requires
            errors_wf(self),
        ensures
            self@.len() == 0 ==> r == Ok::<T, ErrorVec>(value),
            self@.len() > 0 ==> (r matches Err(e) && e@ == self@),
    {
        match self.errors {
            None => Ok(value),
            Some(e) => Err(e),
        }
    }

    /// Success with no value when no error was added, else the errors.
    pub fn to_unit_result(self) -> (r: Result<(), ErrorVec>)
        requires
            errors_wf(self),
        ensures
            self@.len() == 0 ==> r is Ok,
            self@.len() > 0 ==> (r matches Err(e) && e@ == self@),
    {
        self.to_result(())
    }

    /// What `supplier` gives when no error was added, else the errors; the
    /// supplier is called only in the first case.
    pub fn to_lazy_result<T, F: FnOnce() -> T>(self, supplier: F) -> (r: Result<T, ErrorVec>)
        requires
            errors_wf(self),
            self@.len() == 0 ==> supplier.requires(()),
        ensures
            self@.len() == 0 ==> (r matches Ok(v) && supplier.ensures((), v)),
            self@.len() > 0 ==> (r matches Err(e) && e@ == self@),
    {
        match self.errors {
            None => Ok(supplier()),
            Some(e) => Err(e),
        }
    }

    /// Adds the errors of a failure; a success adds nothing.
    pub fn append_result<T>(&mut self, result: Result<T, ErrorVec>)
        requires
            errors_wf(*old(self)),
            result matches Err(e) ==> e@.len() > 0,
        ensures
            errors_wf(*final(self)),
            result is Ok ==> final(self)@ == old(self)@,
            result matches Err(e) ==> final(self)@ == old(self)@ + e@,
    {
        let _ = self.add_result(result);
    }

    /// The value of a successful `result` when no error was added; else every
    /// error, those added first.
    pub fn result_to_result<T>(self, result: Result<T, ErrorVec>) -> (r: Result<T, ErrorVec>)
        requires
            errors_wf(self),
            result matches Err(e) ==> e@.len() > 0,
        ensures
            (self@.len() == 0 && result is Ok) ==> r == result,
            !(self@.len() == 0 && result is Ok) ==> (r matches Err(e) && e@ == self@ + match result {
                Ok(_) => Seq::<(Loc, Error)>::empty(),
                Err(x) => x@,
            }),
    {
        let ghost before = self@;
        match result {
            Ok(value) => {
                assert(before + Seq::<(Loc, Error)>::empty() =~= before);
                self.to_result(value)
            },
            Err(errors) => match self.errors {
                Some(mut mine) => {
                    mine.append(errors);
                    Err(mine)
                },
                None => {
                    assert(Seq::<(Loc, Error)>::empty() + errors@ =~= errors@);
                    Err(errors)
                },
            },
        }
    }
}


impl Error {
    /// Both values when both succeed; else the errors of the failures, those
    /// of `r1` first.
    pub fn merge<T1, T2>(r1: Result<T1, ErrorVec>, r2: Result<T2, ErrorVec>) -> (r: Result<(T1, T2), ErrorVec>)
        ensures
            match (r1, r2) {
                (Ok(t1), Ok(t2)) => r == Ok::<(T1, T2), ErrorVec>((t1, t2)),
                (Err(e1), Ok(_)) => r matches Err(e) && e@ == e1@,
                (Ok(_), Err(e2)) => r matches Err(e) && e@ == e2@,
                (Err(e1), Err(e2)) => r matches Err(e) && e@ == e1@ + e2@,
            },
    {
        match (r1, r2) {
            (Err(mut e1), Err(e2)) => {
                e1.append(e2);
                Err(e1)
            },
            (Err(e1), Ok(_)) => Err(e1),
            (Ok(_), Err(e2)) => Err(e2),
            (Ok(t1), Ok(t2)) => Ok((t1, t2)),
        }
    }

    /// The three values when all succeed; else the errors of the failures, in order.
    pub fn merge3<T1, T2, T3>(
        r1: Result<T1, ErrorVec>,
        r2: Result<T2, ErrorVec>,
        r3: Result<T3, ErrorVec>,
    ) -> (r: Result<(T1, T2, T3), ErrorVec>)
        ensures
            match (r1, r2, r3) {
                (Ok(t1), Ok(t2), Ok(t3)) => r == Ok::<(T1, T2, T3), ErrorVec>((t1, t2, t3)),
                _ => r matches Err(e) && e@ == errs_of(r1) + errs_of(r2) + errs_of(r3),
            },
    {
        let ghost (g1, g2, g3) = (r1, r2, r3);
        match Self::merge(Self::merge(r1, r2), r3) {
            Ok(((t1, t2), t3)) => Ok((t1, t2, t3)),
            Err(e) => {
                proof {
                    assert(errs_of(g1) + errs_of(g2) + errs_of(g3) =~= e@) by {
                        match (g1, g2, g3) {
                            (Ok(_), Ok(_), Err(x)) => {
                                assert(Seq::<(Loc, Error)>::empty() + Seq::<(Loc, Error)>::empty() + x@ =~= x@);
                            },
                            (Ok(_), Err(x), Ok(_)) => {
                                assert(Seq::<(Loc, Error)>::empty() + x@ + Seq::<(Loc, Error)>::empty() =~= x@);
                            },
                            (Err(x), Ok(_), Ok(_)) => {
                                assert(x@ + Seq::<(Loc, Error)>::empty() + Seq::<(Loc, Error)>::empty() =~= x@);
                            },
                            (Ok(_), Err(x), Err(y)) => {
                                assert(Seq::<(Loc, Error)>::empty() + x@ + y@ =~= x@ + y@);
                            },
                            (Err(x), Ok(_), Err(y)) => {
                                assert(x@ + Seq::<(Loc, Error)>::empty() + y@ =~= x@ + y@);
                            },
                            (Err(x), Err(y), Ok(_)) => {
                                assert(x@ + y@ + Seq::<(Loc, Error)>::empty() =~= x@ + y@);
                            },
                            _ => {},
                        }
                    }
                }
                Err(e)
            },
        }
    }

    /// The error for a value of type `actual` where `expected` was wanted.
    pub fn type_mismatch(expected: Type, actual: Type) -> (r: Error)
        ensures
            r == Error::TypeMismatch(expected, actual),
    {
        Error::TypeMismatch(expected, actual)
    }
}

/// The errors of a result: none for a success.
pub open spec fn errs_of<T>(r: Result<T, ErrorVec>) -> Seq<(Loc, Error)> {
    match r {
        Ok(_) => Seq::empty(),
        Err(e) => e@,
    }
}

} // verus!
