//! The types of a scope, shared once the scope is closed.
use std::rc::Rc;

use vstd::prelude::*;

use crate::names::{builtin_types, TypeNames, TypeNamesV};

verus! {

/// The types known by full path and their local names, while they are set up.
#[derive(Debug)]
pub struct Scope {
    types: TypeNames,
}

impl View for Scope {
    type V = TypeNamesV;

    closed spec fn view(&self) -> TypeNamesV {
        self.types@
    }
}

/// A scope that no longer changes, cheap to share.
#[derive(Debug, Clone)]
pub struct Closed {
    scope: Rc<Scope>,
}

impl View for Closed {
    type V = TypeNamesV;

    closed spec fn view(&self) -> TypeNamesV {
        (*self.scope)@
    }
}

impl Default for Scope {
    /// No type at all.
    fn default() -> (r: Scope)
        ensures
            r.wf(),
            r@ == (TypeNamesV { types: Map::empty(), locals: Map::empty() }),
    {
        Scope { types: TypeNames::new() }
    }
}

impl Scope {
    /// The types are laid out well: see `TypeNames::wf`.
    pub closed spec fn wf(&self) -> bool {
        self.types.wf()
    }

    /// Ends the setting up of the scope; it stays as it is.
    pub fn close(self) -> (r: Closed)
        ensures
            r@ == self@,
    {
        Closed { scope: Rc::new(self) }
    }

    /// The scope of the types the language knows.
    pub fn builtin() -> (r: Scope)
        ensures
            r.wf(),
            builtin_types(r@),
    {
        Scope { types: TypeNames::builtin() }
    }
}

} // verus!
