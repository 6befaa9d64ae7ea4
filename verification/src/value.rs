//! The values programs compute.
use vstd::prelude::*;

use crate::error::{ErrV, Error, ErrorVec, Loc, errs_view};
use crate::interpreter::{as_bool, as_int};
use crate::integer::{Integer, decimal_text};
use crate::symbol::{KnownTSymbol, TSymbol, known_text};
use crate::types::{Type, TypeV};

verus! {

/// A value: `None`, a boolean, an integer, or the only value of a singleton type.
#[derive(Debug, PartialEq, Eq)]
pub enum Value {
    /// The value `None`.
    Unit,
    True,
    False,
    Integer(Integer),
    Singleton(TSymbol),
}

/// The mathematical view of a value.
pub ghost enum ValueV {
    Unit,
    True,
    False,
    Int(int),
    Singleton(Seq<char>),
}

impl View for Value {
    type V = ValueV;

    open spec fn view(&self) -> ValueV {
        match self {
            Value::Unit => ValueV::Unit,
            Value::True => ValueV::True,
            Value::False => ValueV::False,
            Value::Integer(i) => ValueV::Int(i@),
            Value::Singleton(t) => ValueV::Singleton(t@),
        }
    }
}

/// The most precise type of a value.
pub open spec fn value_type(v: ValueV) -> TypeV {
    match v {
        ValueV::Unit => TypeV::Unit,
        ValueV::True => TypeV::True,
        ValueV::False => TypeV::False,
        ValueV::Int(_) => TypeV::Integer,
        ValueV::Singleton(s) => TypeV::Singleton(s),
    }
}

/// A value belongs to its own type, and a boolean also to `Boolean`.
pub open spec fn has_type(v: ValueV, t: TypeV) -> bool {
    value_type(v) == t || (t == TypeV::Boolean && (v == ValueV::True || v == ValueV::False))
}

pub open spec fn bool_value(b: bool) -> ValueV {
    if b {
        ValueV::True
    } else {
        ValueV::False
    }
}

/// The only value of a type, for the types that have one.
pub open spec fn singleton_of(t: TypeV) -> Option<ValueV> {
    match t {
        TypeV::Unit => Some(ValueV::Unit),
        TypeV::True => Some(ValueV::True),
        TypeV::False => Some(ValueV::False),
        TypeV::Singleton(s) => Some(ValueV::Singleton(s)),
        _ => None,
    }
}

/// How a program spells a value.
pub open spec fn value_text(v: ValueV) -> Seq<char> {
    match v {
        ValueV::Unit => known_text(KnownTSymbol::Unit),
        ValueV::True => known_text(KnownTSymbol::True),
        ValueV::False => known_text(KnownTSymbol::False),
        ValueV::Int(n) => decimal_text(n),
        ValueV::Singleton(s) => s,
    }
}

impl Value {
    pub fn v_none() -> (r: Value)
        ensures
            r@ == ValueV::Unit,
    {
        Value::Unit
    }

    pub fn v_true() -> (r: Value)
        ensures
            r@ == ValueV::True,
    {
        Value::True
    }

    pub fn v_false() -> (r: Value)
        ensures
            r@ == ValueV::False,
    {
        Value::False
    }

    pub fn v_bool(b: bool) -> (r: Value)
        ensures
            r@ == bool_value(b),
    {
        if b {
            Value::True
        } else {
            Value::False
        }
    }

    pub fn integer(i: Integer) -> (r: Value)
        ensures
            r@ == ValueV::Int(i@),
    {
        Value::Integer(i)
    }

    pub fn from_i64(i: i64) -> (r: Value)
        ensures
            r@ == ValueV::Int(i as int),
    {
        Value::Integer(Integer::from_i64(i))
    }

    /// The only value of `tipo`; types with many values have none.
    pub fn v_singleton(loc: &Loc, tipo: &Type) -> (r: Result<Value, ErrorVec>)
        ensures
            match singleton_of(tipo@) {
                Some(v) => r matches Ok(x) && x@ == v,
                None => r matches Err(e) && e@ == seq![(*loc, Error::SingletonExpected(*tipo))],
            },
    {
        match tipo {
            Type::Unit => Ok(Value::Unit),
            Type::True => Ok(Value::True),
            Type::False => Ok(Value::False),
            Type::Singleton(t) => Ok(Value::Singleton(t.duplicate())),
            Type::Boolean => loc.err(Error::SingletonExpected(Type::Boolean)),
            Type::Integer => loc.err(Error::SingletonExpected(Type::Integer)),
        }
    }

    /// The type of the value.
    pub fn get_type(&self) -> (r: Type)
        ensures
            r@ == value_type(self@),
    {
        match self {
            Value::Unit => Type::Unit,
            Value::True => Type::True,
            Value::False => Type::False,
            Value::Integer(_) => Type::Integer,
            Value::Singleton(t) => Type::Singleton(t.duplicate()),
        }
    }

    /// An integer value of type `tipo`, which must be `Integer`.
    pub fn v_integer(loc: &Loc, tipo: Type, value: Integer) -> (r: Result<Value, ErrorVec>)
        ensures
            tipo@ == TypeV::Integer ==> (r matches Ok(x) && x@ == ValueV::Int(value@)),
            tipo@ != TypeV::Integer ==> (r matches Err(e) && e@ == seq![(*loc, Error::SingletonExpected(tipo))]),
    {
        if tipo.is_integer() {
            Ok(Value::Integer(value))
        } else {
            loc.err(Error::SingletonExpected(tipo))
        }
    }

    /// The integer this value is, or a type mismatch at `loc`.
    pub fn as_integer(self, loc: &Loc) -> (r: Result<Integer, ErrorVec>)
        ensures
            match as_int(*loc, self@) {
                Ok(n) => r matches Ok(x) && x@ == n,
                Err(es) => r matches Err(x) && errs_view(x@) == es,
            },
    {
        match self {
            Value::Integer(i) => Ok(i),
            _ => {
                let r = loc.err(Error::TypeMismatch(Type::Integer, self.get_type()));
                assert(errs_view(r->Err_0@) =~= seq![(*loc, ErrV::TypeMismatch(TypeV::Integer, value_type(self@)))]);
                r
            },
        }
    }

    /// The boolean this value is, or a type mismatch at `loc`.
    pub fn as_boolean(self, loc: &Loc) -> (r: Result<bool, ErrorVec>)
        ensures
            match as_bool(*loc, self@) {
                Ok(b) => r == Ok::<bool, ErrorVec>(b),
                Err(es) => r matches Err(x) && errs_view(x@) == es,
            },
    {
        match self {
            Value::True => Ok(true),
            Value::False => Ok(false),
            _ => {
                let r = loc.err(Error::TypeMismatch(Type::Boolean, self.get_type()));
                assert(errs_view(r->Err_0@) =~= seq![(*loc, ErrV::TypeMismatch(TypeV::Boolean, value_type(self@)))]);
                r
            },
        }
    }

    /// A copy of the value.
    pub fn duplicate(&self) -> (r: Value)
        ensures
            r@ == self@,
    {
        match self {
            Value::Unit => Value::Unit,
            Value::True => Value::True,
            Value::False => Value::False,
            Value::Integer(i) => Value::Integer(i.duplicate()),
            Value::Singleton(t) => Value::Singleton(t.duplicate()),
        }
    }

    /// The text of the value, as a program would spell it.
    pub fn to_text(&self) -> (r: String)
        ensures
            r@ == value_text(self@),
    {
        match self {
            Value::Unit => KnownTSymbol::Unit.as_str().to_owned(),
            Value::True => KnownTSymbol::True.as_str().to_owned(),
            Value::False => KnownTSymbol::False.as_str().to_owned(),
            Value::Integer(i) => i.to_decimal_string(),
            Value::Singleton(t) => t.text(),
        }
    }
}

} // verus!
