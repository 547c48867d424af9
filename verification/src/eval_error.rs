use vstd::prelude::*;

use crate::ast::{Val, AST};

verus! {

/// A typed evaluation failure. Every operation of the interpreter
/// returns a value or one of these; nothing panics.
#[derive(Debug)]
pub enum EvalError {
    /// A value had the wrong kind: expected kind name, offending value.
    NotA(&'static str, AST),
    /// A symbol was not bound anywhere in the scope chain.
    UnknownVar(String),
    /// An arity violation.
    ArgsMismatch(Unexpected),
    /// A fixed-text condition (no arguments, empty Q-expression,
    /// division by zero, malformed bindings).
    Message(&'static str),
    /// Raised by the `error` builtin with program-supplied text.
    UserDefined(String),
    /// An input could not be read; carries the reported reason.
    ReadError(String),
    /// Not a failure: the control signal that ends the host loop.
    Exit,
}

/// An arity violation: how many arguments were expected and given.
#[derive(Clone, Copy, Debug, PartialEq, Eq, Structural)]
pub struct Unexpected {
    pub expected: usize,
    pub given: usize,
}

/// The mathematical shape of an evaluation failure.
pub enum ErrVal {
    NotA(Seq<char>, Val),
    UnknownVar(Seq<char>),
    ArgsMismatch(int, int),
    Message(Seq<char>),
    UserDefined(Seq<char>),
    ReadError(Seq<char>),
    Exit,
}

impl EvalError {
    pub open spec fn model(self) -> ErrVal {
        match self {
            EvalError::NotA(t, v) => ErrVal::NotA(t@, v@),
            EvalError::UnknownVar(s) => ErrVal::UnknownVar(s@),
            EvalError::ArgsMismatch(u) => ErrVal::ArgsMismatch(
                u.expected as int,
                u.given as int,
            ),
            EvalError::Message(s) => ErrVal::Message(s@),
            EvalError::UserDefined(s) => ErrVal::UserDefined(s@),
            EvalError::ReadError(s) => ErrVal::ReadError(s@),
            EvalError::Exit => ErrVal::Exit,
        }
    }
}

impl View for EvalError {
    type V = ErrVal;

    open spec fn view(&self) -> ErrVal {
        (*self).model()
    }
}

/// The error raised where an operation got no arguments at all.
pub open spec fn no_args_err() -> ErrVal {
    ErrVal::Message("no arguments"@)
}

/// The error raised by `head` and `tail` on an empty Q-expression.
pub open spec fn empty_qexpr_err() -> ErrVal {
    ErrVal::Message("qexpr is empty"@)
}

/// The error raised where a binding form's symbol list and value list
/// have different lengths.
pub open spec fn def_err() -> ErrVal {
    ErrVal::Message("symbol and value lists have different lengths"@)
}

/// The error raised by `/` on a zero divisor (or an unrepresentable
/// quotient).
pub open spec fn div_zero_err() -> ErrVal {
    ErrVal::Message("div by zero"@)
}

/// The error raised where evaluation has nested deeper than the fuel
/// handed to `eval` allows.
pub open spec fn depth_err() -> ErrVal {
    ErrVal::Message("recursion too deep"@)
}

/// The error raised where a lambda's parameter list carries more than
/// one name after the variadic marker.
pub open spec fn vararg_err() -> ErrVal {
    ErrVal::Message("more than one param after &"@)
}

/// Writers of arity errors: `given.expected(n)` is the mismatch error
/// that reports `n` expected arguments against `given` supplied ones.
pub trait Expected: Sized {
    spec fn as_given(self) -> int;

    fn expected(self, expected: usize) -> (e: EvalError)
        ensures
            e@ == ErrVal::ArgsMismatch(expected as int, self.as_given()),
    ;
}

impl Expected for usize {
    open spec fn as_given(self) -> int {
        self as int
    }

    fn expected(self, expected: usize) -> (e: EvalError)
        ensures
            e@ == ErrVal::ArgsMismatch(expected as int, self as int),
    {
        EvalError::ArgsMismatch(Unexpected { expected, given: self })
    }
}

} // verus!
