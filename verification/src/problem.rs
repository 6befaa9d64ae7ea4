//! Problems found while processing input: errors, which stop a result, and
//! warnings, which go along with a value. Combining results keeps every
//! problem, in order.
use vstd::prelude::*;

use crate::input::Position;

verus! {

/// An error at a position: its code and its message.
#[derive(Clone, Debug)]
pub struct Error {
    pub position: Position,
    pub code: String,
    pub message: String,
}

/// A warning at a position: its code and its message.
#[derive(Clone, Debug)]
pub struct Warning {
    pub position: Position,
    pub code: String,
    pub message: String,
}

/// A value with the warnings found while computing it.
#[derive(Debug)]
pub struct Warnings<T> {
    pub warnings: Vec<Warning>,
    pub value: T,
}

/// The errors and warnings of a failure.
#[derive(Debug)]
pub struct Problems {
    pub errors: Vec<Error>,
    pub warnings: Vec<Warning>,
}

/// A value with its warnings, or the problems that stopped it.
pub type Result<T> = core::result::Result<Warnings<T>, Problems>;

impl Error {
    pub fn new(position: Position, code: String, message: String) -> (r: Error)
        ensures
            r.position == position,
            r.code == code,
            r.message == message,
    {
        Error { position, code, message }
    }

    /// A failure with this error alone.
    pub fn to_err<T>(self) -> (r: Result<T>)
        ensures
            r matches Err(p) && p.errors@ == seq![self] && p.warnings@.len() == 0,
    {
        let mut errors = Vec::new();
        errors.push(self);
        Err(Problems { errors, warnings: Vec::new() })
    }
}

impl Warning {
    pub fn new(position: Position, code: String, message: String) -> (r: Warning)
        ensures
            r.position == position,
            r.code == code,
            r.message == message,
    {
        Warning { position, code, message }
    }

    /// A success with `value` and this warning.
    pub fn to_ok<T>(self, value: T) -> (r: Result<T>)
        ensures
            r matches Ok(w) && w.warnings@ == seq![self] && w.value == value,
    {
        let mut warnings = Vec::new();
        warnings.push(self);
        Ok(Warnings { warnings, value })
    }

    /// This warning, with no value.
    pub fn to_warnings(self) -> (r: Warnings<()>)
        ensures
            r.warnings@ == seq![self],
    {
        let mut warnings = Vec::new();
        warnings.push(self);
        Warnings { warnings, value: () }
    }
}

/// What `and_then` gives: the warnings so far come before those of `next`.
pub open spec fn after_warnings<U>(before: Seq<Warning>, next: Result<U>, r: Result<U>) -> bool {
    match next {
        Ok(w2) => r matches Ok(w) && w.warnings@ == before + w2.warnings@ && w.value == w2.value,
        Err(e2) => r matches Err(p) && p.errors@ == e2.errors@ && p.warnings@ == before
            + e2.warnings@,
    }
}

impl<T> Warnings<T> {
    pub fn add(&mut self, warning: Warning)
        ensures
            final(self).warnings@ == old(self).warnings@.push(warning),
            final(self).value == old(self).value,
    {
        self.warnings.push(warning);
    }

    /// The warnings, as problems without errors, and the value.
    pub fn to_problems(self) -> (r: (Problems, T))
        ensures
            r.0.errors@.len() == 0,
            r.0.warnings@ == self.warnings@,
            r.1 == self.value,
    {
        (Problems { errors: Vec::new(), warnings: self.warnings }, self.value)
    }

    /// Goes on with the value; the warnings so far stay in front of what
    /// comes next.
    pub fn and_then<U, F: FnOnce(T) -> Result<U>>(self, op: F) -> (r: Result<U>)
        requires
            op.requires((self.value,)),
        ensures
            exists|next: Result<U>|
                op.ensures((self.value,), next) && after_warnings(self.warnings@, next, r),
    {
        let ghost before = self.warnings@;
        let ghost v0 = self.value;
        let mut warnings = self.warnings;
        let result = op(self.value);
        let ghost res = result;
        let r = if warnings.len() == 0 {
            proof {
                assert(before =~= Seq::<Warning>::empty());
                assert(forall|x: Seq<Warning>| #[trigger] (before + x) =~= x);
            }
            result
        } else {
            match result {
                Ok(w2) => {
                    let mut more = w2.warnings;
                    warnings.append(&mut more);
                    Ok(Warnings { warnings, value: w2.value })
                },
                Err(e2) => {
                    let mut more = e2.warnings;
                    warnings.append(&mut more);
                    Err(Problems { errors: e2.errors, warnings })
                },
            }
        };
        assert(op.ensures((v0,), res) && after_warnings(before, res, r));
        r
    }

    /// These warnings with another value.
    pub fn to_result<U>(self, value: U) -> (r: Result<U>)
        ensures
            r matches Ok(w) && w.warnings@ == self.warnings@ && w.value == value,
    {
        Ok(Warnings { warnings: self.warnings, value })
    }
}

impl<T> Warnings<Option<T>> {
    /// Goes on with the value inside, if there is one; none stays none. The
    /// warnings so far stay in front of what comes next.
    pub fn and_then_map<U, F: FnOnce(T) -> Result<U>>(self, op: F) -> (r: Result<Option<U>>)
        requires
            self.value matches Some(v) ==> op.requires((v,)),
        ensures
            self.value is None ==> (r matches Ok(w) && w.warnings@ == self.warnings@ && w.value is None),
            self.value matches Some(v) ==> exists|next: Result<U>|
                op.ensures((v,), next) && match next {
                    Ok(w2) => r matches Ok(w) && w.warnings@ == self.warnings@ + w2.warnings@
                        && w.value == Some(w2.value),
                    Err(e2) => r matches Err(p) && p.errors@ == e2.errors@ && p.warnings@
                        == self.warnings@ + e2.warnings@,
                },
    {
        let mut warnings = self.warnings;
        match self.value {
            None => Ok(Warnings { warnings, value: None }),
            Some(input) => {
                let ghost v0 = input;
                let result = op(input);
                let ghost res = result;
                let ghost before = warnings@;
                let r = match result {
                    Ok(w2) => {
                        let mut more = w2.warnings;
                        warnings.append(&mut more);
                        Ok(Warnings { warnings, value: Some(w2.value) })
                    },
                    Err(e2) => {
                        let mut more = e2.warnings;
                        warnings.append(&mut more);
                        Err(Problems { errors: e2.errors, warnings })
                    },
                };
                assert(op.ensures((v0,), res));
                r
            },
        }
    }
}

impl Problems {
    /// Adds the problems of `problems` after these.
    pub fn add_problems(&mut self, problems: Problems)
        ensures
            final(self).errors@ == old(self).errors@ + problems.errors@,
            final(self).warnings@ == old(self).warnings@ + problems.warnings@,
    {
        let mut errors = problems.errors;
        let mut warnings = problems.warnings;
        self.errors.append(&mut errors);
        self.warnings.append(&mut warnings);
    }

    /// Keeps the problems of `result`, and its value if it has one.
    pub fn add_result<T>(&mut self, result: Result<T>) -> (r: Option<T>)
        ensures
            match result {
                Ok(w) => r == Some(w.value) && final(self).errors@ == old(self).errors@
                    && final(self).warnings@ == old(self).warnings@ + w.warnings@,
                Err(e) => r is None && final(self).errors@ == old(self).errors@ + e.errors@
                    && final(self).warnings@ == old(self).warnings@ + e.warnings@,
            },
    {
        match result {
            Ok(w) => {
                let mut warnings = w.warnings;
                self.warnings.append(&mut warnings);
                Some(w.value)
            },
            Err(e) => {
                self.add_problems(e);
                None
            },
        }
    }

    fn to_ok<T>(self, value: T) -> (r: Result<T>)
        ensures
            r matches Ok(w) && w.warnings@.len() == 0 && w.value == value,
    {
        Ok(Warnings { warnings: Vec::new(), value })
    }

    fn to_err<T>(self) -> (r: Result<T>)
        ensures
            r matches Err(p) && p.errors@ == self.errors@ && p.warnings@ == self.warnings@,
    {
        Err(Problems { errors: self.errors, warnings: self.warnings })
    }

    /// `value` when there is no error, else these problems.
    pub fn to_result<T>(self, value: T) -> (r: Result<T>)
        ensures
            self.errors@.len() == 0 ==> (r matches Ok(w) && w.warnings@.len() == 0 && w.value == value),
            self.errors@.len() > 0 ==> (r matches Err(p) && p.errors@ == self.errors@
                && p.warnings@ == self.warnings@),
    {
        if self.errors.len() == 0 {
            self.to_ok(value)
        } else {
            self.to_err()
        }
    }

    pub fn to_unit_result(self) -> (r: Result<()>)
        ensures
            self.errors@.len() == 0 ==> (r matches Ok(w) && w.warnings@.len() == 0),
            self.errors@.len() > 0 ==> (r matches Err(p) && p.errors@ == self.errors@
                && p.warnings@ == self.warnings@),
    {
        self.to_result(())
    }

    /// What `supplier` gives when there is no error, else these problems; the
    /// supplier is called only when there is no error.
    pub fn to_lazy_result<T, F: FnOnce() -> T>(self, supplier: F) -> (r: Result<T>)
        requires
            self.errors@.len() == 0 ==> supplier.requires(()),
        ensures
            self.errors@.len() == 0 ==> (r matches Ok(w) && w.warnings@.len() == 0
                && supplier.ensures((), w.value)),
            self.errors@.len() > 0 ==> (r matches Err(p) && p.errors@ == self.errors@
                && p.warnings@ == self.warnings@),
    {
        if self.errors.len() == 0 {
            let value = supplier();
            self.to_ok(value)
        } else {
            self.to_err()
        }
    }

    /// The problems of one error.
    pub fn from_error(value: Error) -> (r: Problems)
        ensures
            r.errors@ == seq![value],
            r.warnings@.len() == 0,
    {
        let mut errors = Vec::new();
        errors.push(value);
        Problems { errors, warnings: Vec::new() }
    }
}

/// A failure with a single error.
pub fn error<T>(position: Position, code: String, message: String) -> (r: Result<T>)
    ensures
        r matches Err(p) && p.errors@ == seq![Error { position, code, message }] && p.warnings@.len()
            == 0,
{
    Error::new(position, code, message).to_err()
}

/// A success with no warnings.
pub fn ok<T>(value: T) -> (r: Result<T>)
    ensures
        r matches Ok(w) && w.warnings@.len() == 0 && w.value == value,
{
    Ok(Warnings { warnings: Vec::new(), value })
}

/// Both values when both succeed; otherwise the errors of the failures. The
/// warnings of both are kept, those of `one` first, and so are the errors.
pub fn merge<U, V>(one: Result<U>, two: Result<V>) -> (r: Result<(U, V)>)
    ensures
        match (one, two) {
            (Ok(w1), Ok(w2)) => r matches Ok(w) && w.warnings@ == w1.warnings@ + w2.warnings@
                && w.value == (w1.value, w2.value),
            (Ok(w1), Err(e2)) => r matches Err(p) && p.errors@ == e2.errors@ && p.warnings@
                == w1.warnings@ + e2.warnings@,
            (Err(e1), Ok(w2)) => r matches Err(p) && p.errors@ == e1.errors@ && p.warnings@
                == e1.warnings@ + w2.warnings@,
            (Err(e1), Err(e2)) => r matches Err(p) && p.errors@ == e1.errors@ + e2.errors@
                && p.warnings@ == e1.warnings@ + e2.warnings@,
        },
{
    match one {
        Ok(w1) => {
            let mut warnings = w1.warnings;
            match two {
                Ok(w2) => {
                    let mut more = w2.warnings;
                    warnings.append(&mut more);
                    Ok(Warnings { warnings, value: (w1.value, w2.value) })
                },
                Err(e2) => {
                    let mut more = e2.warnings;
                    warnings.append(&mut more);
                    Err(Problems { errors: e2.errors, warnings })
                },
            }
        },
        Err(e1) => {
            let mut errors = e1.errors;
            let mut warnings = e1.warnings;
            match two {
                Ok(w2) => {
                    let mut more = w2.warnings;
                    warnings.append(&mut more);
                },
                Err(e2) => {
                    let mut more_errors = e2.errors;
                    let mut more = e2.warnings;
                    errors.append(&mut more_errors);
                    warnings.append(&mut more);
                },
            }
            Err(Problems { errors, warnings })
        },
    }
}

/// A value, if one was made, and the problems found on the way.
pub struct Output<T> {
    value: Option<T>,
    problems: Problems,
}

impl<T> Output<T> {
    pub closed spec fn spec_value(&self) -> Option<T> {
        self.value
    }

    pub closed spec fn spec_errors(&self) -> Seq<Error> {
        self.problems.errors@
    }

    pub closed spec fn spec_warnings(&self) -> Seq<Warning> {
        self.problems.warnings@
    }

    /// No value and no problem.
    pub fn new() -> (r: Output<T>)
        ensures
            r.spec_value() is None,
            r.spec_errors().len() == 0,
            r.spec_warnings().len() == 0,
    {
        Output { value: None, problems: Problems { errors: Vec::new(), warnings: Vec::new() } }
    }

    /// A value and no problem.
    pub fn ok(value: T) -> (r: Output<T>)
        ensures
            r.spec_value() == Some(value),
            r.spec_errors().len() == 0,
            r.spec_warnings().len() == 0,
    {
        Output { value: Some(value), problems: Problems { errors: Vec::new(), warnings: Vec::new() } }
    }

    /// Sets the value; gives back the one it had.
    pub fn replace(&mut self, value: T) -> (r: Option<T>)
        ensures
            r == old(self).spec_value(),
            final(self).spec_value() == Some(value),
            final(self).spec_errors() == old(self).spec_errors(),
            final(self).spec_warnings() == old(self).spec_warnings(),
    {
        let r = self.value.take();
        self.value = Some(value);
        r
    }

    /// Maps the value, if there is one; the problems stay.
    pub fn map<U, F: FnOnce(T) -> U>(self, op: F) -> (r: Output<U>)
        requires
            self.spec_value() matches Some(v) ==> op.requires((v,)),
        ensures
            self.spec_value() is None ==> r.spec_value() is None,
            self.spec_value() matches Some(v) ==> (r.spec_value() matches Some(u) && op.ensures((v,), u)),
            r.spec_errors() == self.spec_errors(),
            r.spec_warnings() == self.spec_warnings(),
    {
        let value = match self.value {
            Some(t) => Some(op(t)),
            None => None,
        };
        Output { value, problems: self.problems }
    }

    /// Goes on with the value, if there is one; the problems so far come
    /// before those of what comes next.
    pub fn and_then<U, F: FnOnce(T) -> Output<U>>(self, op: F) -> (r: Output<U>)
        requires
            self.spec_value() matches Some(v) ==> op.requires((v,)),
        ensures
            self.spec_value() is None ==> (r.spec_value() is None && r.spec_errors()
                == self.spec_errors() && r.spec_warnings() == self.spec_warnings()),
            self.spec_value() matches Some(v) ==> exists|next: Output<U>|
                op.ensures((v,), next) && r.spec_value() == next.spec_value() && r.spec_errors()
                    == self.spec_errors() + next.spec_errors() && r.spec_warnings()
                    == self.spec_warnings() + next.spec_warnings(),
    {
        let mut problems = self.problems;
        match self.value {
            None => Output { value: None, problems },
            Some(t) => {
                let ghost v0 = t;
                let other = op(t);
                let ghost o = other;
                problems.add_problems(other.problems);
                let r = Output { value: other.value, problems };
                assert(op.ensures((v0,), o) && r.spec_value() == o.spec_value());
                r
            },
        }
    }

    /// Combines both values, if both have one; the problems of both stay.
    pub fn merge<U, V, F: FnOnce(T, U) -> V>(self, other: Output<U>, op: F) -> (r: Output<V>)
        requires
            self.spec_value() matches Some(t) ==> (other.spec_value() matches Some(u) ==> op.requires(
                (t, u),
            )),
        ensures
            self.spec_value() matches Some(t) ==> (other.spec_value() matches Some(u) ==> (
            r.spec_value() matches Some(v) && op.ensures((t, u), v))),
            (self.spec_value() is None || other.spec_value() is None) ==> r.spec_value() is None,
            r.spec_errors() == self.spec_errors() + other.spec_errors(),
            r.spec_warnings() == self.spec_warnings() + other.spec_warnings(),
    {
        let mut problems = self.problems;
        problems.add_problems(other.problems);
        let value = match self.value {
            Some(t) => match other.value {
                Some(u) => Some(op(t, u)),
                None => None,
            },
            None => None,
        };
        Output { value, problems }
    }

    /// Pairs both values, if both have one; the problems of both stay.
    pub fn merge_to_tuple<U>(self, other: Output<U>) -> (r: Output<(T, U)>)
        ensures
            self.spec_value() matches Some(t) ==> (other.spec_value() matches Some(u) ==> r.spec_value()
                == Some((t, u))),
            (self.spec_value() is None || other.spec_value() is None) ==> r.spec_value() is None,
            r.spec_errors() == self.spec_errors() + other.spec_errors(),
            r.spec_warnings() == self.spec_warnings() + other.spec_warnings(),
    {
        let mut problems = self.problems;
        problems.add_problems(other.problems);
        let value = match self.value {
            Some(t) => match other.value {
                Some(u) => Some((t, u)),
                None => None,
            },
            None => None,
        };
        Output { value, problems }
    }

    /// Takes the problems of `other`, and gives back its value.
    pub fn merge_problems<U>(&mut self, other: Output<U>) -> (r: Option<U>)
        ensures
            r == other.spec_value(),
            final(self).spec_value() == old(self).spec_value(),
            final(self).spec_errors() == old(self).spec_errors() + other.spec_errors(),
            final(self).spec_warnings() == old(self).spec_warnings() + other.spec_warnings(),
    {
        self.problems.add_problems(other.problems);
        other.value
    }

    /// The value with the warnings when there is a value and no error; the
    /// problems otherwise.
    pub fn to_result(self) -> (r: Result<T>)
        ensures
            (self.spec_value() is Some && self.spec_errors().len() == 0) ==> (r matches Ok(w)
                && Some(w.value) == self.spec_value() && w.warnings@ == self.spec_warnings()),
            !(self.spec_value() is Some && self.spec_errors().len() == 0) ==> (r matches Err(p)
                && p.errors@ == self.spec_errors() && p.warnings@ == self.spec_warnings()),
    {
        if self.value.is_some() && self.problems.errors.len() == 0 {
            match self.value {
                Some(v) => Ok(Warnings { warnings: self.problems.warnings, value: v }),
                None => Err(self.problems),
            }
        } else {
            Err(self.problems)
        }
    }

    pub fn add_error(&mut self, error: Error)
        ensures
            final(self).spec_value() == old(self).spec_value(),
            final(self).spec_errors() == old(self).spec_errors().push(error),
            final(self).spec_warnings() == old(self).spec_warnings(),
    {
        self.problems.errors.push(error);
    }

    pub fn add_warning(&mut self, warning: Warning)
        ensures
            final(self).spec_value() == old(self).spec_value(),
            final(self).spec_errors() == old(self).spec_errors(),
            final(self).spec_warnings() == old(self).spec_warnings().push(warning),
    {
        self.problems.warnings.push(warning);
    }

    /// No value, and the error.
    pub fn from_error(value: Error) -> (r: Output<T>)
        ensures
            r.spec_value() is None,
            r.spec_errors() == seq![value],
            r.spec_warnings().len() == 0,
    {
        Output { value: None, problems: Problems::from_error(value) }
    }
}

impl<T> Output<Vec<T>> {
    /// An empty list of values and no problem.
    pub fn empty() -> (r: Output<Vec<T>>)
        ensures
            r.spec_value() matches Some(v) && v@.len() == 0,
            r.spec_errors().len() == 0,
            r.spec_warnings().len() == 0,
    {
        Output { value: Some(Vec::new()), problems: Problems { errors: Vec::new(), warnings: Vec::new() } }
    }

    /// Adds a value to the list.
    pub fn add_value(&mut self, value: T)
        requires
            old(self).spec_value() is Some,
        ensures
            final(self).spec_value() matches Some(v) && v@ == old(self).spec_value()->Some_0@.push(value),
            final(self).spec_errors() == old(self).spec_errors(),
            final(self).spec_warnings() == old(self).spec_warnings(),
    {
        match &mut self.value {
            Some(v) => v.push(value),
            None => {},
        }
    }

    /// Adds the value of `output` to the list, if it has one, and keeps its
    /// problems.
    pub fn add_output(&mut self, output: Output<T>)
        requires
            old(self).spec_value() is Some || output.spec_value() is None,
        ensures
            match output.spec_value() {
                Some(t) => final(self).spec_value() matches Some(v) && v@ == old(
                    self,
                ).spec_value()->Some_0@.push(t),
                None => final(self).spec_value() == old(self).spec_value(),
            },
            final(self).spec_errors() == old(self).spec_errors() + output.spec_errors(),
            final(self).spec_warnings() == old(self).spec_warnings() + output.spec_warnings(),
    {
        self.problems.add_problems(output.problems);
        match output.value {
            Some(t) => self.add_value(t),
            None => {},
        }
    }
}


/// The position of a problem that is not tied to any input.
#[derive(Clone, Copy, Debug, PartialEq, Eq, Structural)]
pub struct NoPosition {}

impl NoPosition {
    pub fn get() -> (r: NoPosition)
        ensures
            r == (NoPosition {}),
    {
        NoPosition {}
    }
}

/// What every problem tells: where it stands, its code and its message.
pub trait Problem {
    fn position(&self) -> Position;

    fn code(&self) -> String;

    fn message(&self) -> String;
}

impl Problem for Error {
    fn position(&self) -> (r: Position)
        ensures
            r == self.position,
    {
        self.position.duplicate()
    }

    fn code(&self) -> (r: String)
        ensures
            r@ == self.code@,
    {
        self.code.clone()
    }

    fn message(&self) -> (r: String)
        ensures
            r@ == self.message@,
    {
        self.message.clone()
    }
}

impl Problem for Warning {
    fn position(&self) -> (r: Position)
        ensures
            r == self.position,
    {
        self.position.duplicate()
    }

    fn code(&self) -> (r: String)
        ensures
            r@ == self.code@,
    {
        self.code.clone()
    }

    fn message(&self) -> (r: String)
        ensures
            r@ == self.message@,
    {
        self.message.clone()
    }
}


/// Gathers errors and warnings one by one, then gives a result.
pub struct ResultBuilder {
    problems: Problems,
}

impl ResultBuilder {
    pub closed spec fn spec_errors(&self) -> Seq<Error> {
        self.problems.errors@
    }

    pub closed spec fn spec_warnings(&self) -> Seq<Warning> {
        self.problems.warnings@
    }

    pub fn add_error(&mut self, position: Position, code: String, message: String)
        ensures
            final(self).spec_errors() == old(self).spec_errors().push(Error { position, code, message }),
            final(self).spec_warnings() == old(self).spec_warnings(),
    {
        self.problems.errors.push(Error { position, code, message });
    }

    pub fn add_warning(&mut self, position: Position, code: String, message: String)
        ensures
            final(self).spec_warnings() == old(self).spec_warnings().push(
                Warning { position, code, message },
            ),
            final(self).spec_errors() == old(self).spec_errors(),
    {
        self.problems.warnings.push(Warning { position, code, message });
    }

    /// `value` with the warnings when there is no error, else every problem.
    pub fn to_result<T>(self, value: T) -> (r: Result<T>)
        ensures
            self.spec_errors().len() == 0 ==> (r matches Ok(w) && w.value == value && w.warnings@
                == self.spec_warnings()),
            self.spec_errors().len() > 0 ==> (r matches Err(p) && p.errors@ == self.spec_errors()
                && p.warnings@ == self.spec_warnings()),
    {
        if self.problems.errors.len() == 0 {
            Ok(Warnings { warnings: self.problems.warnings, value })
        } else {
            Err(self.problems)
        }
    }

    pub fn to_unit_result(self) -> (r: Result<()>)
        ensures
            self.spec_errors().len() == 0 ==> (r matches Ok(w) && w.warnings@ == self.spec_warnings()),
            self.spec_errors().len() > 0 ==> (r matches Err(p) && p.errors@ == self.spec_errors()
                && p.warnings@ == self.spec_warnings()),
    {
        self.to_result(())
    }

    /// What `supplier` gives, with the warnings, when there is no error, else
    /// every problem; the supplier is called only in the first case.
    pub fn to_lazy_result<T, F: FnOnce() -> T>(self, supplier: F) -> (r: Result<T>)
        requires
            self.spec_errors().len() == 0 ==> supplier.requires(()),
        ensures
            self.spec_errors().len() == 0 ==> (r matches Ok(w) && supplier.ensures((), w.value)
                && w.warnings@ == self.spec_warnings()),
            self.spec_errors().len() > 0 ==> (r matches Err(p) && p.errors@ == self.spec_errors()
                && p.warnings@ == self.spec_warnings()),
    {
        if self.problems.errors.len() == 0 {
            let value = supplier();
            Ok(Warnings { warnings: self.problems.warnings, value })
        } else {
            Err(self.problems)
        }
    }
}

impl<T> Output<T> {
    /// A builder with no problem yet.
    pub fn builder() -> (r: ResultBuilder)
        ensures
            r.spec_errors().len() == 0,
            r.spec_warnings().len() == 0,
    {
        ResultBuilder { problems: Problems { errors: Vec::new(), warnings: Vec::new() } }
    }
}

} // verus!
