use vstd::prelude::*;

use crate::ast::{elems_model, Val, AST};
use crate::env::{frames_preserved, Bindings, Env};
use crate::eval_error::{ErrVal, EvalError, Expected};
use crate::function::{zip_bind, Builtin, Lambda};
use crate::qexpr::QExpr;
use crate::semantics::{
    add_spec, assign_spec, bindings_spec, builtin_spec, def_spec, div_spec, eq_spec,
    eval_builtin_spec, first_non_num, first_non_qexpr, first_non_sym, head_spec, if_spec,
    join_spec, lambda_spec, less_spec, lemma_first_non_num, lemma_first_non_qexpr,
    lemma_first_non_sym, list_spec, load_builtin_spec, mul_spec, outcome_of, res_model, sub_spec,
    tail_spec,
};
use crate::transformers::{binary, binary_or_unary, maps_to_ok, oftype, unary};

verus! {

broadcast use vstd::std_specs::vec::group_vec_axioms, vstd::seq::group_seq_axioms;

/// Runs one primitive on an already-evaluated argument list: exactly
/// `builtin_spec` of the arguments' models. Every primitive checks its
/// own arity and argument kinds; none panics.
pub(crate) fn dispatch(b: Builtin, env: &mut Env, args: Vec<AST>, fuel: u64) -> (r: Result<
    AST,
    EvalError,
>)
    ensures
        frames_preserved(old(env)@, final(env)@),
        outcome_of(r, final(env)@) == builtin_spec(b, elems_model(args), old(env)@, fuel as nat),
    decreases fuel, 0nat, 2nat,
{
    match b {
        Builtin::Add => crate::builtins::add(env, args),
        Builtin::Sub => crate::builtins::sub(env, args),
        Builtin::Mul => crate::builtins::mul(env, args),
        Builtin::Div => div(env, args),
        Builtin::Lambda => lambda(env, args),
        Builtin::Assign => assign(env, args),
        Builtin::Less => less(env, args),
        Builtin::Eq => eq(env, args),
        Builtin::List => list(env, args),
        Builtin::Head => head(env, args),
        Builtin::Tail => tail(env, args),
        Builtin::Join => join(env, args),
        Builtin::Eval => eval(env, args, fuel),
        Builtin::Def => def(env, args),
        Builtin::If => iff(env, args, fuel),
        Builtin::Load => load(env, args),
        Builtin::Print => print(env, args),
        Builtin::Error => error(env, args),
        Builtin::Exit => exit(env, args),
    }
}

/// The numbers held by a sequence of values; meaningful where each is
/// a `Num`.
pub open spec fn nums_of(s: Seq<Val>) -> Seq<int> {
    Seq::new(s.len(), |i: int| s[i]->Num_0)
}

/// Addition on 128-bit two's-complement integers, wrapping around on
/// overflow.
pub open spec fn wrap_add(a: int, b: int) -> int {
    vstd::wrapping::i128_specs::wrapping_add(a as i128, b as i128) as int
}

/// Subtraction on 128-bit two's-complement integers, wrapping around.
pub open spec fn wrap_sub(a: int, b: int) -> int {
    vstd::wrapping::i128_specs::wrapping_sub(a as i128, b as i128) as int
}

/// Multiplication on 128-bit two's-complement integers, wrapping
/// around on overflow.
pub open spec fn wrap_mul(a: int, b: int) -> int {
    vstd::wrapping::i128_specs::wrapping_mul(a as i128, b as i128) as int
}

/// The sum of a sequence of numbers, left to right from zero, each
/// step wrapping.
pub open spec fn wrap_sum(s: Seq<int>) -> int
    decreases s.len(),
{
    if s.len() == 0 {
        0
    } else {
        wrap_add(wrap_sum(s.drop_last()), s.last())
    }
}

/// The product of a sequence of numbers, left to right from one, each
/// step wrapping.
pub open spec fn wrap_product(s: Seq<int>) -> int
    decreases s.len(),
{
    if s.len() == 0 {
        1
    } else {
        wrap_mul(wrap_product(s.drop_last()), s.last())
    }
}

/// Truncating division of two 128-bit integers, where a zero divisor
/// or an unrepresentable quotient is no result at all.
pub open spec fn div_result(x: int, y: int) -> Option<int> {
    if y == 0 {
        None
    } else {
        let q = if x == 0 {
            0
        } else if x > 0 && y > 0 {
            x / y
        } else if x < 0 && y < 0 {
            (x * -1) / (y * -1)
        } else if x < 0 {
            ((x * -1) / y) * -1
        } else {
            (x / (y * -1)) * -1
        };
        if q < i128::MIN as int || q > i128::MAX as int {
            None
        } else {
            Some(q)
        }
    }
}

/// The concatenation of a sequence of lists, in order.
pub open spec fn concat_all(qs: Seq<Seq<Val>>) -> Seq<Val>
    decreases qs.len(),
{
    if qs.len() == 0 {
        Seq::empty()
    } else {
        concat_all(qs.drop_last()) + qs.last()
    }
}

/// The names of a list of symbols; meaningful where each is a `Sym`.
pub open spec fn syms_of(items: Seq<Val>) -> Seq<Seq<char>> {
    Seq::new(items.len(), |i: int| items[i]->Sym_0)
}

/// Converts every argument to its number; the first argument of
/// another kind wins, as `first_non_num` finds it.
fn numbers(args: Vec<AST>) -> (r: Result<Vec<i128>, EvalError>)
    ensures
        ({
            let am = elems_model(args);
            &&& (am.len() == 0 ==> (r matches Err(e) && e@ == crate::eval_error::no_args_err()))
            &&& (am.len() > 0 ==> (if first_non_num(am, 0) < am.len() {
                r matches Err(e) && e@ == ErrVal::NotA("number"@, am[first_non_num(am, 0)])
            } else {
                r matches Ok(out) && out@.len() == am.len() && forall|i: int|
                    0 <= i < am.len() ==> am[i] == Val::Num(#[trigger] out@[i] as int)
            }))
        }),
{
    let ghost am = elems_model(args);
    let conv = |x: AST| -> (res: Result<i128, EvalError>)
        ensures
            x@ is Num ==> (res matches Ok(n) && x@ == Val::Num(n as int)),
            !(x@ is Num) ==> (res matches Err(e) && e@ == ErrVal::NotA("number"@, x@)),
        { x.number() };
    let r = oftype(conv, args);
    let ghost gr = r;
    proof {
        if am.len() > 0 {
            match gr {
                Ok(out) => {
                    assert forall|j: int| 0 <= j < am.len() implies (#[trigger] am[j]) is Num by {
                        assert(call_ensures(conv, (args@[j],), Ok(out@[j])));
                    }
                    lemma_first_non_num(am, 0, am.len() as int);
                },
                Err(e) => {
                    let i = choose|i: int|
                        {
                            &&& 0 <= i < args@.len()
                            &&& #[trigger] call_ensures(conv, (args@[i],), Err(e))
                            &&& forall|j: int| 0 <= j < i ==> #[trigger] maps_to_ok(
                                conv,
                                args@[j],
                            )
                        };
                    assert forall|j: int| 0 <= j < i implies (#[trigger] am[j]) is Num by {
                        assert(maps_to_ok(conv, args@[j]));
                        let y = choose|y: i128| call_ensures(conv, (args@[j],), Ok(y));
                        assert(call_ensures(conv, (args@[j],), Ok(y)));
                    }
                    lemma_first_non_num(am, 0, i);
                },
            }
        }
    }
    r
}

/// `+`: the wrapping sum of one or more numbers.
pub fn add(env: &mut Env, args: Vec<AST>) -> (r: Result<AST, EvalError>)
    ensures
        final(env)@ == old(env)@,
        res_model(r) == add_spec(elems_model(args)),
{
    let ghost am = elems_model(args);
    let ns = match numbers(args) {
        Ok(ns) => ns,
        Err(e) => {
            return Err(e);
        },
    };
    let ghost target = nums_of(am);
    let mut acc: i128 = 0;
    let n = ns.len();
    let mut i: usize = 0;
    while i < n
        invariant
            n == ns@.len(),
            n == target.len(),
            i <= n,
            forall|j: int| 0 <= j < n ==> target[j] == #[trigger] ns@[j] as int,
            acc as int == wrap_sum(target.take(i as int)),
        decreases n - i,
    {
        acc = acc.wrapping_add(ns[i]);
        proof {
            assert(target.take(i + 1).drop_last() =~= target.take(i as int));
        }
        i += 1;
    }
    proof {
        assert(target.take(n as int) =~= target);
    }
    Ok(AST::Number(acc))
}

/// `*`: the wrapping product of one or more numbers.
pub fn mul(env: &mut Env, args: Vec<AST>) -> (r: Result<AST, EvalError>)
    ensures
        final(env)@ == old(env)@,
        res_model(r) == mul_spec(elems_model(args)),
{
    let ghost am = elems_model(args);
    let ns = match numbers(args) {
        Ok(ns) => ns,
        Err(e) => {
            return Err(e);
        },
    };
    let ghost target = nums_of(am);
    let mut acc: i128 = 1;
    let n = ns.len();
    let mut i: usize = 0;
    while i < n
        invariant
            n == ns@.len(),
            n == target.len(),
            i <= n,
            forall|j: int| 0 <= j < n ==> target[j] == #[trigger] ns@[j] as int,
            acc as int == wrap_product(target.take(i as int)),
        decreases n - i,
    {
        acc = acc.wrapping_mul(ns[i]);
        proof {
            assert(target.take(i + 1).drop_last() =~= target.take(i as int));
        }
        i += 1;
    }
    proof {
        assert(target.take(n as int) =~= target);
    }
    Ok(AST::Number(acc))
}

/// `-`: wrapping subtraction of two numbers, or wrapping negation of
/// one.
pub fn sub(env: &mut Env, args: Vec<AST>) -> (r: Result<AST, EvalError>)
    ensures
        final(env)@ == old(env)@,
        res_model(r) == sub_spec(elems_model(args)),
{
    let (first, second) = match binary_or_unary(args) {
        Ok(p) => p,
        Err(e) => {
            return Err(e);
        },
    };
    let x = match first.number() {
        Ok(x) => x,
        Err(e) => {
            return Err(e);
        },
    };
    match second {
        Some(b) => {
            let y = match b.number() {
                Ok(y) => y,
                Err(e) => {
                    return Err(e);
                },
            };
            Ok(AST::Number(x.wrapping_sub(y)))
        },
        None => Ok(AST::Number((0 as i128).wrapping_sub(x))),
    }
}

/// `/`: truncating division of two numbers; dividing by zero (or the
/// one unrepresentable quotient) is an error, never a panic.
pub fn div(env: &mut Env, args: Vec<AST>) -> (r: Result<AST, EvalError>)
    ensures
        final(env)@ == old(env)@,
        res_model(r) == div_spec(elems_model(args)),
{
    let (first, second) = match binary(args) {
        Ok(p) => p,
        Err(e) => {
            return Err(e);
        },
    };
    let x = match first.number() {
        Ok(x) => x,
        Err(e) => {
            return Err(e);
        },
    };
    let y = match second.number() {
        Ok(y) => y,
        Err(e) => {
            return Err(e);
        },
    };
    match x.checked_div(y) {
        Some(z) => Ok(AST::Number(z)),
        None => Err(EvalError::Message("div by zero")),
    }
}

/// `<`: one if the first number is less than the second, else zero.
pub fn less(env: &mut Env, args: Vec<AST>) -> (r: Result<AST, EvalError>)
    ensures
        final(env)@ == old(env)@,
        res_model(r) == less_spec(elems_model(args)),
{
    let (first, second) = match binary(args) {
        Ok(p) => p,
        Err(e) => {
            return Err(e);
        },
    };
    let x = match first.number() {
        Ok(x) => x,
        Err(e) => {
            return Err(e);
        },
    };
    let y = match second.number() {
        Ok(y) => y,
        Err(e) => {
            return Err(e);
        },
    };
    Ok(AST::Number(if x < y {
        1
    } else {
        0
    }))
}

/// `==`: one if the two values are equal, else zero. Values of
/// different kinds are never equal; numeric equality is exact;
/// builtins compare by identity, closures structurally.
pub fn eq(env: &mut Env, args: Vec<AST>) -> (r: Result<AST, EvalError>)
    ensures
        final(env)@ == old(env)@,
        res_model(r) == eq_spec(elems_model(args)),
{
    let (first, second) = match binary(args) {
        Ok(p) => p,
        Err(e) => {
            return Err(e);
        },
    };
    Ok(AST::Number(if crate::ast::values_equal(&first, &second) {
        1
    } else {
        0
    }))
}

/// `list`: packs one or more arguments into a Q-expression.
pub fn list(env: &mut Env, args: Vec<AST>) -> (r: Result<AST, EvalError>)
    ensures
        final(env)@ == old(env)@,
        res_model(r) == list_spec(elems_model(args)),
{
    if args.len() == 0 {
        Err(EvalError::Message("no arguments"))
    } else {
        Ok(AST::QExpr(QExpr(args)))
    }
}

/// `head`: a one-element Q-expression holding the first element of a
/// Q-expression; the empty one is an error.
pub fn head(env: &mut Env, args: Vec<AST>) -> (r: Result<AST, EvalError>)
    ensures
        final(env)@ == old(env)@,
        res_model(r) == head_spec(elems_model(args)),
{
    let a = match unary(args) {
        Ok(a) => a,
        Err(e) => {
            return Err(e);
        },
    };
    let q = match a.qexpr() {
        Ok(q) => q,
        Err(e) => {
            return Err(e);
        },
    };
    match q.head() {
        Ok(h) => Ok(AST::QExpr(h)),
        Err(e) => Err(e),
    }
}

/// `tail`: everything but the first element of a Q-expression; the
/// empty one is an error.
pub fn tail(env: &mut Env, args: Vec<AST>) -> (r: Result<AST, EvalError>)
    ensures
        final(env)@ == old(env)@,
        res_model(r) == tail_spec(elems_model(args)),
{
    let a = match unary(args) {
        Ok(a) => a,
        Err(e) => {
            return Err(e);
        },
    };
    let q = match a.qexpr() {
        Ok(q) => q,
        Err(e) => {
            return Err(e);
        },
    };
    match q.tail() {
        Ok(t) => Ok(AST::QExpr(t)),
        Err(e) => Err(e),
    }
}

/// `join`: concatenates one or more Q-expressions into one.
pub fn join(env: &mut Env, args: Vec<AST>) -> (r: Result<AST, EvalError>)
    ensures
        final(env)@ == old(env)@,
        res_model(r) == join_spec(elems_model(args)),
{
    let ghost am = elems_model(args);
    let conv = |x: AST| -> (res: Result<QExpr, EvalError>)
        ensures
            x@ is QExpr ==> (res matches Ok(q) && x@ == Val::QExpr(q@)),
            !(x@ is QExpr) ==> (res matches Err(e) && e@ == ErrVal::NotA("Q-expr"@, x@)),
        { x.qexpr() };
    let qs = match oftype(conv, args) {
        Ok(qs) => qs,
        Err(e) => {
            proof {
                if am.len() > 0 {
                    let i = choose|i: int|
                        {
                            &&& 0 <= i < args@.len()
                            &&& #[trigger] call_ensures(conv, (args@[i],), Err(e))
                            &&& forall|j: int| 0 <= j < i ==> #[trigger] maps_to_ok(
                                conv,
                                args@[j],
                            )
                        };
                    assert forall|j: int| 0 <= j < i implies (#[trigger] am[j]) is QExpr by {
                        assert(maps_to_ok(conv, args@[j]));
                        let y = choose|y: QExpr| call_ensures(conv, (args@[j],), Ok(y));
                        assert(call_ensures(conv, (args@[j],), Ok(y)));
                    }
                    lemma_first_non_qexpr(am, 0, i);
                }
            }
            return Err(e);
        },
    };
    proof {
        assert forall|j: int| 0 <= j < am.len() implies (#[trigger] am[j]) is QExpr by {
            assert(call_ensures(conv, (args@[j],), Ok(qs@[j])));
        }
        lemma_first_non_qexpr(am, 0, am.len() as int);
    }
    let ghost target = Seq::new(am.len(), |i: int| am[i]->QExpr_0);
    let mut rest = qs;
    let mut out: Vec<AST> = Vec::new();
    let n = rest.len();
    let mut i: usize = 0;
    proof {
        assert(target =~= Seq::new(args@.len(), |i: int| args@[i]@->QExpr_0));
    }
    while i < n
        invariant
            n == target.len(),
            i <= n,
            rest@.len() == n - i,
            forall|k: int| 0 <= k < rest@.len() ==> (#[trigger] rest@[k])@ == target[k + i],
            elems_model(out) == concat_all(target.take(i as int)),
        decreases n - i,
    {
        let ghost pre = elems_model(out);
        let mut q = rest.remove(0);
        out.append(&mut q.0);
        proof {
            assert(elems_model(out) =~= pre + target[i as int]);
            assert(target.take(i + 1).drop_last() =~= target.take(i as int));
        }
        i += 1;
    }
    proof {
        assert(target.take(n as int) =~= target);
    }
    Ok(AST::QExpr(QExpr(out)))
}

/// `eval`: evaluates a Q-expression as code.
pub fn eval(env: &mut Env, args: Vec<AST>, fuel: u64) -> (r: Result<AST, EvalError>)
    ensures
        frames_preserved(old(env)@, final(env)@),
        outcome_of(r, final(env)@) == eval_builtin_spec(elems_model(args), old(env)@, fuel as nat),
    decreases fuel, 0nat, 1nat,
{
    let a = match unary(args) {
        Ok(a) => a,
        Err(e) => {
            return Err(e);
        },
    };
    let q = match a.qexpr() {
        Ok(q) => q,
        Err(e) => {
            return Err(e);
        },
    };
    if fuel == 0 {
        return Err(EvalError::Message("recursion too deep"));
    }
    q.eval(env, fuel - 1)
}

/// Builds the batch of bindings that `def` and `=` apply: the first
/// argument is a Q-expression of symbols, the rest are their values,
/// one for one; exactly `bindings_spec` of the arguments' models.
fn bindings(args: Vec<AST>) -> (r: Result<Bindings, EvalError>)
    ensures
        match bindings_spec(elems_model(args)) {
            Ok(bs) => r matches Ok(b) && crate::ast::bindings_model(b) == bs,
            Err(e) => r matches Err(err) && err@ == e,
        },
{
    let ghost whole = elems_model(args);
    let mut rest = args;
    if rest.len() == 0 {
        return Err(EvalError::Message("no arguments"));
    }
    let first = rest.remove(0);
    let q = match first.qexpr() {
        Ok(q) => q,
        Err(e) => {
            return Err(e);
        },
    };
    let ghost items = q@;
    let names = match q.symbols() {
        Ok(names) => names,
        Err(e) => {
            proof {
                let i = choose|i: int|
                    {
                        &&& 0 <= i < items.len()
                        &&& !((#[trigger] items[i]) is Sym)
                        &&& forall|j: int| 0 <= j < i ==> items[j] is Sym
                        &&& e@ == ErrVal::NotA("symbol"@, items[i])
                    };
                lemma_first_non_sym(items, 0, i);
            }
            return Err(e);
        },
    };
    proof {
        assert forall|j: int| 0 <= j < items.len() implies (#[trigger] items[j]) is Sym by {
            assert(items[j] == Val::Sym(names@[j]@));
        }
        lemma_first_non_sym(items, 0, items.len() as int);
    }
    if names.len() != rest.len() {
        return Err(EvalError::Message("symbol and value lists have different lengths"));
    }
    let mut out: Bindings = Vec::new();
    let mut names = names;
    let mut rest = rest;
    let n = names.len();
    let ghost zips = zip_bind(syms_of(items), whole.drop_first());
    let mut i: usize = 0;
    proof {
        assert(syms_of(items).len() == items.len());
    }
    while i < n
        invariant
            n == zips.len(),
            i <= n,
            names@.len() == n - i,
            rest@.len() == n - i,
            forall|k: int| 0 <= k < names@.len() ==> #[trigger] names@[k]@ == zips[k + i].0,
            forall|k: int| 0 <= k < rest@.len() ==> (#[trigger] rest@[k])@ == zips[k + i].1,
            crate::ast::bindings_model(out) == zips.take(i as int),
        decreases n - i,
    {
        let ghost pre = crate::ast::bindings_model(out);
        let name = names.remove(0);
        let value = rest.remove(0);
        out.push((name, value));
        proof {
            assert(crate::ast::bindings_model(out) =~= pre.push(zips[i as int]));
            assert(pre.push(zips[i as int]) =~= zips.take(i + 1));
        }
        i += 1;
    }
    proof {
        assert(zips.take(n as int) =~= zips);
    }
    Ok(out)
}

/// `def`: binds symbols so that every scope sees them — the batch is
/// written through to the root environment, whatever the nesting.
pub fn def(env: &mut Env, args: Vec<AST>) -> (r: Result<AST, EvalError>)
    ensures
        frames_preserved(old(env)@, final(env)@),
        outcome_of(r, final(env)@) == def_spec(elems_model(args), old(env)@),
{
    let bs = match bindings(args) {
        Ok(bs) => bs,
        Err(e) => {
            return Err(e);
        },
    };
    env.define(bs);
    Ok(AST::default())
}

/// `=`: binds symbols in the innermost scope alone, shadowing without
/// touching any enclosing scope; at the root it coincides with `def`.
pub fn assign(env: &mut Env, args: Vec<AST>) -> (r: Result<AST, EvalError>)
    ensures
        frames_preserved(old(env)@, final(env)@),
        outcome_of(r, final(env)@) == assign_spec(elems_model(args), old(env)@),
{
    let bs = match bindings(args) {
        Ok(bs) => bs,
        Err(e) => {
            return Err(e);
        },
    };
    env.assign(bs);
    Ok(AST::default())
}

/// `\`: builds a closure from a Q-expression of parameter symbols and
/// a Q-expression body.
pub fn lambda(env: &mut Env, args: Vec<AST>) -> (r: Result<AST, EvalError>)
    ensures
        final(env)@ == old(env)@,
        res_model(r) == lambda_spec(elems_model(args)),
{
    let ghost am = elems_model(args);
    let (first, second) = match binary(args) {
        Ok(p) => p,
        Err(e) => {
            return Err(e);
        },
    };
    let defs = match first.qexpr() {
        Ok(q) => q,
        Err(e) => {
            return Err(e);
        },
    };
    let body = match second.qexpr() {
        Ok(q) => q,
        Err(e) => {
            return Err(e);
        },
    };
    let ghost items = defs@;
    let syms = match defs.symbols() {
        Ok(syms) => syms,
        Err(e) => {
            proof {
                let i = choose|i: int|
                    {
                        &&& 0 <= i < items.len()
                        &&& !((#[trigger] items[i]) is Sym)
                        &&& forall|j: int| 0 <= j < i ==> items[j] is Sym
                        &&& e@ == ErrVal::NotA("symbol"@, items[i])
                    };
                lemma_first_non_sym(items, 0, i);
            }
            return Err(e);
        },
    };
    proof {
        assert forall|j: int| 0 <= j < items.len() implies (#[trigger] items[j]) is Sym by {
            assert(items[j] == Val::Sym(syms@[j]@));
        }
        lemma_first_non_sym(items, 0, items.len() as int);
        assert(crate::function::params_model(syms) =~= syms_of(items));
    }
    Lambda::new(syms, body)
}

/// `if`: a numeric condition selects one of two Q-expression branches;
/// zero selects the second, anything else the first, and only the
/// selected branch is ever evaluated.
pub fn iff(env: &mut Env, args: Vec<AST>, fuel: u64) -> (r: Result<AST, EvalError>)
    ensures
        frames_preserved(old(env)@, final(env)@),
        outcome_of(r, final(env)@) == if_spec(elems_model(args), old(env)@, fuel as nat),
    decreases fuel, 0nat, 1nat,
{
    let mut rest = args;
    if rest.len() == 0 {
        return Err(EvalError::Message("no arguments"));
    }
    let num = match rest.remove(0).number() {
        Ok(n) => n,
        Err(e) => {
            return Err(e);
        },
    };
    if rest.len() == 0 {
        return Err((1 as usize).expected(3));
    }
    let left = match rest.remove(0).qexpr() {
        Ok(q) => q,
        Err(e) => {
            return Err(e);
        },
    };
    if rest.len() == 0 {
        return Err((2 as usize).expected(3));
    }
    let right = match rest.remove(0).qexpr() {
        Ok(q) => q,
        Err(e) => {
            return Err(e);
        },
    };
    if fuel == 0 {
        return Err(EvalError::Message("recursion too deep"));
    }
    if num == 0 {
        right.eval(env, fuel - 1)
    } else {
        left.eval(env, fuel - 1)
    }
}

/// `load`: the interpreter core has no reach to the filesystem or to
/// the parser, so a program that calls `load` from inside evaluated
/// code gets the read error carrying the path; hosts run files by
/// parsing them and handing the forms to the crate's top-level `load`
/// entry point.
pub fn load(env: &mut Env, args: Vec<AST>) -> (r: Result<AST, EvalError>)
    ensures
        final(env)@ == old(env)@,
        res_model(r) == load_builtin_spec(elems_model(args)),
{
    let a = match unary(args) {
        Ok(a) => a,
        Err(e) => {
            return Err(e);
        },
    };
    let path = match a.literal() {
        Ok(p) => p,
        Err(e) => {
            return Err(e);
        },
    };
    Err(EvalError::ReadError(path))
}

/// `print`: writes the arguments' texts, joined by single spaces, as
/// one line on standard output, and yields the unit value.
pub fn print(env: &mut Env, args: Vec<AST>) -> (r: Result<AST, EvalError>)
    ensures
        final(env)@ == old(env)@,
        res_model(r) == Ok::<Val, ErrVal>(crate::ast::unit_val()),
{
    let joined = crate::render::pprint("", &args, "");
    crate::render::emit_line(&joined);
    Ok(AST::default())
}

/// `error`: raises a user-defined exception carrying the given string.
pub fn error(env: &mut Env, args: Vec<AST>) -> (r: Result<AST, EvalError>)
    ensures
        final(env)@ == old(env)@,
        res_model(r) == crate::semantics::error_spec(elems_model(args)),
{
    let a = match unary(args) {
        Ok(a) => a,
        Err(e) => {
            return Err(e);
        },
    };
    let text = match a.literal() {
        Ok(s) => s,
        Err(e) => {
            return Err(e);
        },
    };
    Err(EvalError::UserDefined(text))
}

/// `exit`: not a failure but the control signal that ends the host
/// loop; any arguments are ignored.
pub fn exit(env: &mut Env, args: Vec<AST>) -> (r: Result<AST, EvalError>)
    ensures
        final(env)@ == old(env)@,
        res_model(r) == Err::<Val, ErrVal>(ErrVal::Exit),
{
    let _ = args;
    Err(EvalError::Exit)
}

} // verus!
