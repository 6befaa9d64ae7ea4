//! The types of the language.
use vstd::prelude::*;

use crate::symbol::{KnownTSymbol, TSymbol};

verus! {

/// A type: one of the built-in ones, or a singleton type defined by the program.
#[derive(Clone, Debug, PartialEq, Eq)]
pub enum Type {
    /// The type `None`, whose only value is `None`.
    Unit,
    True,
    False,
    Boolean,
    Integer,
    Singleton(TSymbol),
}

/// The mathematical view of a type.
pub ghost enum TypeV {
    Unit,
    True,
    False,
    Boolean,
    Integer,
    Singleton(Seq<char>),
}

impl View for Type {
    type V = TypeV;

    open spec fn view(&self) -> TypeV {
        match self {
            Type::Unit => TypeV::Unit,
            Type::True => TypeV::True,
            Type::False => TypeV::False,
            Type::Boolean => TypeV::Boolean,
            Type::Integer => TypeV::Integer,
            Type::Singleton(t) => TypeV::Singleton(t@),
        }
    }
}

/// The types whose values are booleans: `True`, `False` and `Boolean`.
pub open spec fn is_boolean(t: TypeV) -> bool {
    t == TypeV::True || t == TypeV::False || t == TypeV::Boolean
}

/// The built-in type a known type symbol names.
pub open spec fn known_type(k: KnownTSymbol) -> TypeV {
    match k {
        KnownTSymbol::Unit => TypeV::Unit,
        KnownTSymbol::True => TypeV::True,
        KnownTSymbol::False => TypeV::False,
        KnownTSymbol::Boolean => TypeV::Boolean,
        KnownTSymbol::Integer => TypeV::Integer,
    }
}

impl Type {
    pub fn type_integer() -> (r: Type)
        ensures
            r@ == TypeV::Integer,
    {
        Type::Integer
    }

    pub fn type_boolean() -> (r: Type)
        ensures
            r@ == TypeV::Boolean,
    {
        Type::Boolean
    }

    /// The built-in type a known type symbol names.
    pub fn known(k: KnownTSymbol) -> (r: Type)
        ensures
            r@ == known_type(k),
    {
        match k {
            KnownTSymbol::Unit => Type::Unit,
            KnownTSymbol::True => Type::True,
            KnownTSymbol::False => Type::False,
            KnownTSymbol::Boolean => Type::Boolean,
            KnownTSymbol::Integer => Type::Integer,
        }
    }

    /// The type `None`.
    pub fn type_none() -> (r: Type)
        ensures
            r@ == TypeV::Unit,
    {
        Type::Unit
    }

    pub fn type_true() -> (r: Type)
        ensures
            r@ == TypeV::True,
    {
        Type::True
    }

    pub fn type_false() -> (r: Type)
        ensures
            r@ == TypeV::False,
    {
        Type::False
    }

    /// Whether the type is one the language knows without a definition.
    pub fn is_builtin(&self) -> (r: bool)
        ensures
            r == !(self@ is Singleton),
    {
        !matches!(self, Type::Singleton(_))
    }

    /// Whether the type is `None`.
    pub fn is_none(&self) -> (r: bool)
        ensures
            r == (self@ == TypeV::Unit),
    {
        matches!(self, Type::Unit)
    }

    pub fn is_true(&self) -> (r: bool)
        ensures
            r == (self@ == TypeV::True),
    {
        matches!(self, Type::True)
    }

    pub fn is_false(&self) -> (r: bool)
        ensures
            r == (self@ == TypeV::False),
    {
        matches!(self, Type::False)
    }

    /// Whether the type has exactly one value.
    pub fn is_singleton(&self) -> (r: bool)
        ensures
            r == (self@ is Unit || self@ is True || self@ is False || self@ is Singleton),
    {
        matches!(self, Type::Unit | Type::True | Type::False | Type::Singleton(_))
    }

    pub fn is_integer(&self) -> (r: bool)
        ensures
            r == (self@ == TypeV::Integer),
    {
        matches!(self, Type::Integer)
    }

    pub fn is_boolean(&self) -> (r: bool)
        ensures
            r == is_boolean(self@),
    {
        match self {
            Type::True | Type::False | Type::Boolean => true,
            _ => false,
        }
    }

    /// A copy of the type.
    pub fn duplicate(&self) -> (r: Type)
        ensures
            r@ == self@,
    {
        match self {
            Type::Unit => Type::Unit,
            Type::True => Type::True,
            Type::False => Type::False,
            Type::Boolean => Type::Boolean,
            Type::Integer => Type::Integer,
            Type::Singleton(t) => Type::Singleton(t.duplicate()),
        }
    }

    /// Whether both types are the same.
    pub fn same(&self, other: &Type) -> (r: bool)
        ensures
            r == (self@ == other@),
    {
        match (self, other) {
            (Type::Unit, Type::Unit) => true,
            (Type::True, Type::True) => true,
            (Type::False, Type::False) => true,
            (Type::Boolean, Type::Boolean) => true,
            (Type::Integer, Type::Integer) => true,
            (Type::Singleton(a), Type::Singleton(b)) => a.same_text(b),
            _ => false,
        }
    }
}

} // verus!
