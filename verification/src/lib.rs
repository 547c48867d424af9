//! A tree-walking interpreter for a small Lisp-like language:
//! S-expressions are evaluated, Q-expressions are quoted list data,
//! symbols resolve through a chain of lexical scopes, and user-defined
//! closures support automatic partial application and variadic
//! parameters. Every operation is specified against a mathematical
//! model of values, environments and errors; the evaluator itself is
//! proved equal to one spec-level evaluation function, `eval_spec`.

pub mod ast;
pub mod builtins;
pub mod eval_error;
pub mod function;
pub mod env;
pub mod qexpr;
pub mod render;
pub mod semantics;
pub mod transformers;

pub use ast::{Val, AST};
pub use eval_error::{ErrVal, EvalError, Expected, Unexpected};
pub use function::{Builtin, FunVal, Function, Lambda, LambdaVal};
pub use env::{Bindings, Env, EnvVal, FrameVal, Global, Scope};
pub use qexpr::QExpr;
