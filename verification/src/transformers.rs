use vstd::prelude::*;

use crate::ast::AST;
use crate::eval_error::{no_args_err, ErrVal, EvalError, Expected};

verus! {

broadcast use vstd::std_specs::vec::group_vec_axioms, vstd::seq::group_seq_axioms;

/// Checks that exactly one argument was supplied and yields it; any
/// other count is an arity error naming one expected argument.
pub fn unary(args: Vec<AST>) -> (r: Result<AST, EvalError>)
    ensures
        args@.len() == 1 ==> (r matches Ok(a) && a == args@[0]),
        args@.len() != 1 ==> (r matches Err(e) && e@ == ErrVal::ArgsMismatch(
            1,
            args@.len() as int,
        )),
{
    let mut args = args;
    if args.len() == 1 {
        match args.pop() {
            Some(a) => Ok(a),
            None => Err(EvalError::Message("no arguments")),
        }
    } else {
        Err(args.len().expected(1))
    }
}

/// Checks that exactly two arguments were supplied and yields them in
/// order; any other count is an arity error naming two.
pub fn binary(args: Vec<AST>) -> (r: Result<(AST, AST), EvalError>)
    ensures
        args@.len() == 2 ==> (r matches Ok(p) && p.0 == args@[0] && p.1 == args@[1]),
        args@.len() != 2 ==> (r matches Err(e) && e@ == ErrVal::ArgsMismatch(
            2,
            args@.len() as int,
        )),
{
    let mut args = args;
    if args.len() == 2 {
        let first = args.remove(0);
        let second = args.remove(0);
        Ok((first, second))
    } else {
        Err(args.len().expected(2))
    }
}

/// Checks that one or two arguments were supplied, for operators with
/// a distinct unary meaning; yields the first and, when present, the
/// second. No arguments at all is the no-arguments message; three or
/// more is an arity error naming two.
pub fn binary_or_unary(args: Vec<AST>) -> (r: Result<(AST, Option<AST>), EvalError>)
    ensures
        args@.len() == 0 ==> (r matches Err(e) && e@ == no_args_err()),
        args@.len() == 1 ==> (r matches Ok(p) && p.0 == args@[0] && p.1 is None),
        args@.len() == 2 ==> (r matches Ok(p) && p.0 == args@[0] && (p.1 matches Some(b) && b
            == args@[1])),
        args@.len() > 2 ==> (r matches Err(e) && e@ == ErrVal::ArgsMismatch(
            2,
            args@.len() as int,
        )),
{
    let mut args = args;
    if args.len() == 0 {
        Err(EvalError::Message("no arguments"))
    } else if args.len() == 1 {
        match args.pop() {
            Some(a) => Ok((a, None)),
            None => Err(EvalError::Message("no arguments")),
        }
    } else if args.len() == 2 {
        let first = args.remove(0);
        let second = args.remove(0);
        Ok((first, Some(second)))
    } else {
        Err(args.len().expected(2))
    }
}

/// That the conversion has a successful outcome on this input; with a
/// deterministic conversion this says it does not fail here.
pub open spec fn maps_to_ok<T, F: Fn(AST) -> Result<T, EvalError>>(f: F, x: AST) -> bool {
    exists|y: T| #[trigger] call_ensures(f, (x,), Ok(y))
}

/// Maps a fallible conversion over a whole list, stopping at the first
/// failure; on success the outputs stand in the inputs' order.
pub fn sequence<T, F: Fn(AST) -> Result<T, EvalError>>(items: Vec<AST>, mapper: F) -> (r: Result<
    Vec<T>,
    EvalError,
>)
    requires
        forall|x: AST| call_requires(mapper, (x,)),
    ensures
        r matches Ok(out) ==> {
            &&& out@.len() == items@.len()
            &&& forall|i: int|
                0 <= i < items@.len() ==> call_ensures(
                    mapper,
                    (items@[i],),
                    Ok(#[trigger] out@[i]),
                )
        },
        r matches Err(e) ==> exists|i: int|
            {
                &&& 0 <= i < items@.len()
                &&& #[trigger] call_ensures(mapper, (items@[i],), Err(e))
                &&& forall|j: int| 0 <= j < i ==> #[trigger] maps_to_ok(mapper, items@[j])
            },
{
    let ghost input = items@;
    let mut rest = items;
    let n = rest.len();
    let mut out: Vec<T> = Vec::new();
    let mut i: usize = 0;
    while i < n
        invariant
            forall|x: AST| call_requires(mapper, (x,)),
            n == input.len(),
            input == items@,
            i <= n,
            rest@.len() == n - i,
            forall|k: int| 0 <= k < rest@.len() ==> rest@[k] == input[k + i],
            out@.len() == i,
            forall|j: int|
                0 <= j < i ==> call_ensures(mapper, (input[j],), Ok(#[trigger] out@[j])),
        decreases n - i,
    {
        let x = rest.remove(0);
        let ghost gx = x;
        proof {
            assert(gx == items@[i as int]);
        }
        match mapper(x) {
            Ok(y) => out.push(y),
            Err(e) => {
                proof {
                    let ii = i as int;
                    assert forall|j: int| 0 <= j < ii implies #[trigger] maps_to_ok(
                        mapper,
                        items@[j],
                    ) by {
                        assert(call_ensures(mapper, (items@[j],), Ok(out@[j])));
                    }
                    assert({
                        &&& 0 <= ii < items@.len()
                        &&& call_ensures(mapper, (items@[ii],), Err::<T, EvalError>(e))
                        &&& forall|j: int| 0 <= j < ii ==> #[trigger] maps_to_ok(mapper, items@[j])
                    });
                }
                return Err(e);
            },
        }
        i += 1;
    }
    proof {
        assert(forall|j: int|
            0 <= j < items@.len() ==> call_ensures(mapper, (items@[j],), Ok(#[trigger] out@[j])));
    }
    Ok(out)
}

/// Converts every argument to one target type with `conv` and yields
/// the typed list; an empty argument list is the no-arguments error,
/// and the first conversion failure wins.
pub fn oftype<T, F: Fn(AST) -> Result<T, EvalError>>(conv: F, args: Vec<AST>) -> (r: Result<
    Vec<T>,
    EvalError,
>)
    requires
        forall|x: AST| call_requires(conv, (x,)),
    ensures
        args@.len() == 0 ==> (r matches Err(e) && e@ == no_args_err()),
        r matches Ok(out) ==> {
            &&& args@.len() > 0
            &&& out@.len() == args@.len()
            &&& forall|i: int|
                0 <= i < args@.len() ==> call_ensures(conv, (args@[i],), Ok(#[trigger] out@[i]))
        },
        args@.len() > 0 ==> (r matches Err(e) ==> exists|i: int|
            {
                &&& 0 <= i < args@.len()
                &&& #[trigger] call_ensures(conv, (args@[i],), Err(e))
                &&& forall|j: int| 0 <= j < i ==> #[trigger] maps_to_ok(conv, args@[j])
            }),
{
    if args.len() == 0 {
        return Err(EvalError::Message("no arguments"));
    }
    sequence(args, conv)
}

} // verus!
