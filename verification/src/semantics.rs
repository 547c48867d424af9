use vstd::prelude::*;

use crate::ast::{lemma_seq_size_elem, unit_val, vsize, Val, AST};
use crate::builtins::{concat_all, div_result, nums_of, syms_of, wrap_product, wrap_sub, wrap_sum};
use crate::env::{env_lookup, EnvVal, FrameVal};
use crate::eval_error::{
    def_err, depth_err, div_zero_err, empty_qexpr_err, no_args_err, vararg_err, ErrVal, EvalError,
};
use crate::function::{bind_model, curry_model, first_amp, zip_bind, Builtin, FunVal, LambdaVal};

verus! {

broadcast use vstd::std_specs::vec::group_vec_axioms, vstd::seq::group_seq_axioms;

/// What one evaluation step leaves behind: its value or error, and the
/// environment as the step leaves it.
pub struct Outcome {
    pub res: Result<Val, ErrVal>,
    pub env: EnvVal,
}

/// The outcome of evaluating a list of expressions: their values in
/// order, or the first error.
pub struct ElemsOutcome {
    pub res: Result<Seq<Val>, ErrVal>,
    pub env: EnvVal,
}

/// The model of an executable evaluation result.
pub open spec fn res_model(r: Result<AST, EvalError>) -> Result<Val, ErrVal> {
    match r {
        Ok(a) => Ok(a@),
        Err(e) => Err(e@),
    }
}

/// The model of an executable result paired with the environment model
/// it left behind.
pub open spec fn outcome_of(r: Result<AST, EvalError>, env: EnvVal) -> Outcome {
    Outcome { res: res_model(r), env }
}

/// A failed step: the error, with the environment as it stands.
pub open spec fn fail(e: ErrVal, env: EnvVal) -> Outcome {
    Outcome { res: Err(e), env }
}

/// A pure step: the value, with the environment untouched.
pub open spec fn yield_val(v: Val, env: EnvVal) -> Outcome {
    Outcome { res: Ok(v), env }
}

/// The environment with one more nested scope.
pub open spec fn push_frame(e: EnvVal, f: FrameVal) -> EnvVal {
    EnvVal { global: e.global, scopes: e.scopes.push(f) }
}

/// The environment with its innermost scope dropped.
pub open spec fn drop_frame(e: EnvVal) -> EnvVal {
    EnvVal { global: e.global, scopes: e.scopes.drop_last() }
}

/// The first index at or after `from` whose value is not a number, or
/// the length when all are.
pub open spec fn first_non_num(s: Seq<Val>, from: int) -> int
    decreases s.len() - from,
{
    if from < 0 || from >= s.len() {
        s.len() as int
    } else if !(s[from] is Num) {
        from
    } else {
        first_non_num(s, from + 1)
    }
}

/// The first index at or after `from` whose value is not a quoted
/// expression, or the length when all are.
pub open spec fn first_non_qexpr(s: Seq<Val>, from: int) -> int
    decreases s.len() - from,
{
    if from < 0 || from >= s.len() {
        s.len() as int
    } else if !(s[from] is QExpr) {
        from
    } else {
        first_non_qexpr(s, from + 1)
    }
}

/// The first index at or after `from` whose value is not a symbol, or
/// the length when all are.
pub open spec fn first_non_sym(s: Seq<Val>, from: int) -> int
    decreases s.len() - from,
{
    if from < 0 || from >= s.len() {
        s.len() as int
    } else if !(s[from] is Sym) {
        from
    } else {
        first_non_sym(s, from + 1)
    }
}

/// A scan that saw numbers up to `k` and stopped there has found
/// `first_non_num`.
pub proof fn lemma_first_non_num(s: Seq<Val>, from: int, k: int)
    requires
        0 <= from <= k <= s.len(),
        forall|j: int| from <= j < k ==> (#[trigger] s[j]) is Num,
        k < s.len() ==> !(s[k] is Num),
    ensures
        first_non_num(s, from) == k,
    decreases k - from,
{
    if from < k {
        lemma_first_non_num(s, from + 1, k);
    }
}

/// The same scan fact for quoted expressions.
pub proof fn lemma_first_non_qexpr(s: Seq<Val>, from: int, k: int)
    requires
        0 <= from <= k <= s.len(),
        forall|j: int| from <= j < k ==> (#[trigger] s[j]) is QExpr,
        k < s.len() ==> !(s[k] is QExpr),
    ensures
        first_non_qexpr(s, from) == k,
    decreases k - from,
{
    if from < k {
        lemma_first_non_qexpr(s, from + 1, k);
    }
}

/// The same scan fact for symbols.
pub proof fn lemma_first_non_sym(s: Seq<Val>, from: int, k: int)
    requires
        0 <= from <= k <= s.len(),
        forall|j: int| from <= j < k ==> (#[trigger] s[j]) is Sym,
        k < s.len() ==> !(s[k] is Sym),
    ensures
        first_non_sym(s, from) == k,
    decreases k - from,
{
    if from < k {
        lemma_first_non_sym(s, from + 1, k);
    }
}

/// `+`: the wrapping sum of one or more numbers; empty is the
/// no-arguments error, and the first non-number wins.
pub open spec fn add_spec(args: Seq<Val>) -> Result<Val, ErrVal> {
    if args.len() == 0 {
        Err(no_args_err())
    } else {
        let k = first_non_num(args, 0);
        if k < args.len() {
            Err(ErrVal::NotA("number"@, args[k]))
        } else {
            Ok(Val::Num(wrap_sum(nums_of(args))))
        }
    }
}

/// `*`: the wrapping product, with the same error discipline as `+`.
pub open spec fn mul_spec(args: Seq<Val>) -> Result<Val, ErrVal> {
    if args.len() == 0 {
        Err(no_args_err())
    } else {
        let k = first_non_num(args, 0);
        if k < args.len() {
            Err(ErrVal::NotA("number"@, args[k]))
        } else {
            Ok(Val::Num(wrap_product(nums_of(args))))
        }
    }
}

/// `-`: wrapping negation of one number or subtraction of two.
pub open spec fn sub_spec(args: Seq<Val>) -> Result<Val, ErrVal> {
    if args.len() == 0 {
        Err(no_args_err())
    } else if args.len() > 2 {
        Err(ErrVal::ArgsMismatch(2, args.len() as int))
    } else if !(args[0] is Num) {
        Err(ErrVal::NotA("number"@, args[0]))
    } else if args.len() == 1 {
        Ok(Val::Num(wrap_sub(0, args[0]->Num_0)))
    } else if !(args[1] is Num) {
        Err(ErrVal::NotA("number"@, args[1]))
    } else {
        Ok(Val::Num(wrap_sub(args[0]->Num_0, args[1]->Num_0)))
    }
}

/// `/`: truncating division; a zero divisor or an unrepresentable
/// quotient is the division error.
pub open spec fn div_spec(args: Seq<Val>) -> Result<Val, ErrVal> {
    if args.len() != 2 {
        Err(ErrVal::ArgsMismatch(2, args.len() as int))
    } else if !(args[0] is Num) {
        Err(ErrVal::NotA("number"@, args[0]))
    } else if !(args[1] is Num) {
        Err(ErrVal::NotA("number"@, args[1]))
    } else {
        match div_result(args[0]->Num_0, args[1]->Num_0) {
            Some(q) => Ok(Val::Num(q)),
            None => Err(div_zero_err()),
        }
    }
}

/// `<`: one if the first number is below the second, else zero.
pub open spec fn less_spec(args: Seq<Val>) -> Result<Val, ErrVal> {
    if args.len() != 2 {
        Err(ErrVal::ArgsMismatch(2, args.len() as int))
    } else if !(args[0] is Num) {
        Err(ErrVal::NotA("number"@, args[0]))
    } else if !(args[1] is Num) {
        Err(ErrVal::NotA("number"@, args[1]))
    } else if args[0]->Num_0 < args[1]->Num_0 {
        Ok(Val::Num(1))
    } else {
        Ok(Val::Num(0))
    }
}

/// `==`: one exactly when the two values are equal.
pub open spec fn eq_spec(args: Seq<Val>) -> Result<Val, ErrVal> {
    if args.len() != 2 {
        Err(ErrVal::ArgsMismatch(2, args.len() as int))
    } else if args[0] == args[1] {
        Ok(Val::Num(1))
    } else {
        Ok(Val::Num(0))
    }
}

/// `list`: the arguments packed as a Q-expression.
pub open spec fn list_spec(args: Seq<Val>) -> Result<Val, ErrVal> {
    if args.len() == 0 {
        Err(no_args_err())
    } else {
        Ok(Val::QExpr(args))
    }
}

/// `head`: a one-element Q-expression of the first element.
pub open spec fn head_spec(args: Seq<Val>) -> Result<Val, ErrVal> {
    if args.len() != 1 {
        Err(ErrVal::ArgsMismatch(1, args.len() as int))
    } else {
        match args[0] {
            Val::QExpr(items) => if items.len() == 0 {
                Err(empty_qexpr_err())
            } else {
                Ok(Val::QExpr(seq![items[0]]))
            },
            _ => Err(ErrVal::NotA("Q-expr"@, args[0])),
        }
    }
}

/// `tail`: everything but the first element.
pub open spec fn tail_spec(args: Seq<Val>) -> Result<Val, ErrVal> {
    if args.len() != 1 {
        Err(ErrVal::ArgsMismatch(1, args.len() as int))
    } else {
        match args[0] {
            Val::QExpr(items) => if items.len() == 0 {
                Err(empty_qexpr_err())
            } else {
                Ok(Val::QExpr(items.drop_first()))
            },
            _ => Err(ErrVal::NotA("Q-expr"@, args[0])),
        }
    }
}

/// `join`: the concatenation of one or more Q-expressions; the first
/// argument of another kind wins.
pub open spec fn join_spec(args: Seq<Val>) -> Result<Val, ErrVal> {
    if args.len() == 0 {
        Err(no_args_err())
    } else {
        let k = first_non_qexpr(args, 0);
        if k < args.len() {
            Err(ErrVal::NotA("Q-expr"@, args[k]))
        } else {
            Ok(Val::QExpr(concat_all(Seq::new(args.len(), |i: int| args[i]->QExpr_0))))
        }
    }
}

/// `\`: the closure built from a parameter list and a body, with the
/// trailing `&` marker split off as the variadic name.
pub open spec fn lambda_of(params: Seq<Seq<char>>, body: Seq<Val>) -> Result<Val, ErrVal> {
    let k = first_amp(params, 0);
    if params.len() - k > 2 {
        Err(vararg_err())
    } else {
        Ok(
            Val::Fun(
                FunVal::Lambda(
                    LambdaVal {
                        context: Seq::empty(),
                        params: params.take(k),
                        vararg: if k + 2 == params.len() {
                            Some(params[params.len() - 1])
                        } else {
                            None
                        },
                        body,
                    },
                ),
            ),
        )
    }
}

/// The `\` builtin over its raw arguments.
pub open spec fn lambda_spec(args: Seq<Val>) -> Result<Val, ErrVal> {
    if args.len() != 2 {
        Err(ErrVal::ArgsMismatch(2, args.len() as int))
    } else if !(args[0] is QExpr) {
        Err(ErrVal::NotA("Q-expr"@, args[0]))
    } else if !(args[1] is QExpr) {
        Err(ErrVal::NotA("Q-expr"@, args[1]))
    } else {
        let items = args[0]->QExpr_0;
        let k = first_non_sym(items, 0);
        if k < items.len() {
            Err(ErrVal::NotA("symbol"@, items[k]))
        } else {
            lambda_of(syms_of(items), args[1]->QExpr_0)
        }
    }
}

/// The batch of bindings `def` and `=` build: the first argument is a
/// Q-expression of symbols, the rest their values, one for one.
pub open spec fn bindings_spec(args: Seq<Val>) -> Result<Seq<(Seq<char>, Val)>, ErrVal> {
    if args.len() == 0 {
        Err(no_args_err())
    } else {
        match args[0] {
            Val::QExpr(items) => {
                let k = first_non_sym(items, 0);
                if k < items.len() {
                    Err(ErrVal::NotA("symbol"@, items[k]))
                } else if items.len() != args.len() - 1 {
                    Err(def_err())
                } else {
                    Ok(zip_bind(syms_of(items), args.drop_first()))
                }
            },
            _ => Err(ErrVal::NotA("Q-expr"@, args[0])),
        }
    }
}

/// `def`: writes the batch through to the root table.
pub open spec fn def_spec(args: Seq<Val>, env: EnvVal) -> Outcome {
    match bindings_spec(args) {
        Err(e) => fail(e, env),
        Ok(bs) => Outcome {
            res: Ok(unit_val()),
            env: EnvVal { global: env.global + bs, scopes: env.scopes },
        },
    }
}

/// `=`: writes the batch into the innermost scope; at the root the two
/// write operations coincide.
pub open spec fn assign_spec(args: Seq<Val>, env: EnvVal) -> Outcome {
    match bindings_spec(args) {
        Err(e) => fail(e, env),
        Ok(bs) => Outcome {
            res: Ok(unit_val()),
            env: if env.scopes.len() == 0 {
                EnvVal { global: env.global + bs, scopes: env.scopes }
            } else {
                EnvVal {
                    global: env.global,
                    scopes: env.scopes.update(
                        env.scopes.len() - 1,
                        env.scopes.last() + bs,
                    ),
                }
            },
        },
    }
}

/// `error`: raises the user-defined exception.
pub open spec fn error_spec(args: Seq<Val>) -> Result<Val, ErrVal> {
    if args.len() != 1 {
        Err(ErrVal::ArgsMismatch(1, args.len() as int))
    } else {
        match args[0] {
            Val::Lit(s) => Err(ErrVal::UserDefined(s)),
            _ => Err(ErrVal::NotA("string"@, args[0])),
        }
    }
}

/// `load` inside evaluated code: the core has no filesystem, so the
/// read error carrying the path is the answer.
pub open spec fn load_builtin_spec(args: Seq<Val>) -> Result<Val, ErrVal> {
    if args.len() != 1 {
        Err(ErrVal::ArgsMismatch(1, args.len() as int))
    } else {
        match args[0] {
            Val::Lit(p) => Err(ErrVal::ReadError(p)),
            _ => Err(ErrVal::NotA("string"@, args[0])),
        }
    }
}

/// The `eval` builtin: runs a Q-expression as code, one body deep.
pub open spec fn eval_builtin_spec(args: Seq<Val>, env: EnvVal, fuel: nat) -> Outcome
    decreases fuel, 0nat, 1int,
{
    if args.len() != 1 {
        fail(ErrVal::ArgsMismatch(1, args.len() as int), env)
    } else {
        match args[0] {
            Val::QExpr(items) => if fuel == 0 {
                fail(depth_err(), env)
            } else {
                eval_spec(Val::SExpr(items), env, (fuel - 1) as nat)
            },
            _ => fail(ErrVal::NotA("Q-expr"@, args[0]), env),
        }
    }
}

/// `if`: a numeric condition selects one of two quoted branches; only
/// the selected branch is evaluated, so the other contributes neither
/// a value, nor an error, nor any change to the environment.
pub open spec fn if_spec(args: Seq<Val>, env: EnvVal, fuel: nat) -> Outcome
    decreases fuel, 0nat, 1int,
{
    if args.len() == 0 {
        fail(no_args_err(), env)
    } else if !(args[0] is Num) {
        fail(ErrVal::NotA("number"@, args[0]), env)
    } else if args.len() == 1 {
        fail(ErrVal::ArgsMismatch(3, 1), env)
    } else if !(args[1] is QExpr) {
        fail(ErrVal::NotA("Q-expr"@, args[1]), env)
    } else if args.len() == 2 {
        fail(ErrVal::ArgsMismatch(3, 2), env)
    } else if !(args[2] is QExpr) {
        fail(ErrVal::NotA("Q-expr"@, args[2]), env)
    } else if fuel == 0 {
        fail(depth_err(), env)
    } else if args[0]->Num_0 == 0 {
        eval_spec(Val::SExpr(args[2]->QExpr_0), env, (fuel - 1) as nat)
    } else {
        eval_spec(Val::SExpr(args[1]->QExpr_0), env, (fuel - 1) as nat)
    }
}

/// One primitive applied to evaluated arguments.
pub open spec fn builtin_spec(b: Builtin, args: Seq<Val>, env: EnvVal, fuel: nat) -> Outcome
    decreases fuel, 0nat, 2int,
{
    match b {
        Builtin::Add => Outcome { res: add_spec(args), env },
        Builtin::Sub => Outcome { res: sub_spec(args), env },
        Builtin::Mul => Outcome { res: mul_spec(args), env },
        Builtin::Div => Outcome { res: div_spec(args), env },
        Builtin::Lambda => Outcome { res: lambda_spec(args), env },
        Builtin::Assign => assign_spec(args, env),
        Builtin::Less => Outcome { res: less_spec(args), env },
        Builtin::Eq => Outcome { res: eq_spec(args), env },
        Builtin::List => Outcome { res: list_spec(args), env },
        Builtin::Head => Outcome { res: head_spec(args), env },
        Builtin::Tail => Outcome { res: tail_spec(args), env },
        Builtin::Join => Outcome { res: join_spec(args), env },
        Builtin::Eval => eval_builtin_spec(args, env, fuel),
        Builtin::Def => def_spec(args, env),
        Builtin::If => if_spec(args, env, fuel),
        Builtin::Load => Outcome { res: load_builtin_spec(args), env },
        Builtin::Print => Outcome { res: Ok(unit_val()), env },
        Builtin::Error => Outcome { res: error_spec(args), env },
        Builtin::Exit => Outcome { res: Err(ErrVal::Exit), env },
    }
}

/// Full application of a closure: the body runs as an S-expression in
/// a fresh scope holding `bind_model`'s table over the calling
/// environment; the scope is dropped when the call returns.
pub open spec fn apply_spec(l: LambdaVal, args: Seq<Val>, env: EnvVal, fuel: nat) -> Outcome
    decreases fuel, 0nat, 2int,
{
    if fuel == 0 {
        fail(depth_err(), env)
    } else {
        let inner = eval_spec(
            Val::SExpr(l.body),
            push_frame(env, bind_model(l, args)),
            (fuel - 1) as nat,
        );
        Outcome { res: inner.res, env: drop_frame(inner.env) }
    }
}

/// Calling a function: a builtin validates its own arity; a closure
/// follows the curry/apply convention.
pub open spec fn call_spec(f: FunVal, args: Seq<Val>, env: EnvVal, fuel: nat) -> Outcome
    decreases fuel, 0nat, 3int,
{
    match f {
        FunVal::Builtin(b) => builtin_spec(b, args, env, fuel),
        FunVal::Lambda(l) => if args.len() < l.params.len() {
            yield_val(Val::Fun(FunVal::Lambda(curry_model(l, args))), env)
        } else if args.len() > l.params.len() && l.vararg is None {
            fail(ErrVal::ArgsMismatch(l.params.len() as int, args.len() as int), env)
        } else {
            apply_spec(l, args, env, fuel)
        },
    }
}

/// How long an S-expression's own dispatch takes beyond its elements;
/// a tie-breaker for the termination measures below.
pub open spec fn sexpr_arity(v: Val) -> int {
    match v {
        Val::SExpr(es) => es.len() as int + 1,
        _ => 0,
    }
}

/// The evaluation relation itself, as one mathematical function:
/// strict, depth-first, left to right, with `fuel` spent only on
/// entering a body. Every executable evaluation step of the crate is
/// proved equal to this function.
pub open spec fn eval_spec(v: Val, env: EnvVal, fuel: nat) -> Outcome
    decreases fuel, vsize(v), sexpr_arity(v),
    via eval_spec_decreases
{
    match v {
        Val::Sym(name) => Outcome {
            res: match env_lookup(env, name) {
                Some(x) => Ok(x),
                None => Err(ErrVal::UnknownVar(name)),
            },
            env,
        },
        Val::SExpr(es) => if es.len() == 0 {
            yield_val(v, env)
        } else if es.len() == 1 {
            eval_spec(es[0], env, fuel)
        } else {
            let elems = eval_elems_spec(es, 0, env, fuel);
            match elems.res {
                Err(e) => fail(e, elems.env),
                Ok(vals) => match vals[0] {
                    Val::Fun(f) => call_spec(f, vals.drop_first(), elems.env, fuel),
                    _ => fail(ErrVal::NotA("function"@, vals[0]), elems.env),
                },
            }
        },
        _ => yield_val(v, env),
    }
}

/// The elements of an S-expression from index `i` on, evaluated left
/// to right against one environment; the first failure wins and the
/// elements after it are not evaluated.
pub open spec fn eval_elems_spec(es: Seq<Val>, i: int, env: EnvVal, fuel: nat) -> ElemsOutcome
    decreases fuel, vsize(Val::SExpr(es)), es.len() - i,
    via eval_elems_spec_decreases
{
    if i < 0 || i >= es.len() {
        ElemsOutcome { res: Ok(Seq::empty()), env }
    } else {
        let first = eval_spec(es[i], env, fuel);
        match first.res {
            Err(e) => ElemsOutcome { res: Err(e), env: first.env },
            Ok(x) => {
                let rest = eval_elems_spec(es, i + 1, first.env, fuel);
                match rest.res {
                    Err(e) => ElemsOutcome { res: Err(e), env: rest.env },
                    Ok(xs) => ElemsOutcome { res: Ok(seq![x] + xs), env: rest.env },
                }
            },
        }
    }
}

#[via_fn]
proof fn eval_spec_decreases(v: Val, env: EnvVal, fuel: nat) {
    match v {
        Val::SExpr(es) => {
            if es.len() >= 1 {
                lemma_seq_size_elem(es, 0, es.len() as int);
                assert(vsize(v) == 1 + crate::ast::seq_size(es));
            }
        },
        _ => {},
    }
}

#[via_fn]
proof fn eval_elems_spec_decreases(es: Seq<Val>, i: int, env: EnvVal, fuel: nat) {
    if 0 <= i < es.len() {
        lemma_seq_size_elem(es, i, es.len() as int);
        assert(vsize(Val::SExpr(es)) == 1 + crate::ast::seq_size(es));
    }
}

/// Prepends already-evaluated values to the outcome of the elements
/// still to come; the loop of the executable evaluator tracks this.
pub open spec fn elems_prepend(done: Seq<Val>, rest: ElemsOutcome) -> ElemsOutcome {
    ElemsOutcome {
        res: match rest.res {
            Ok(vs) => Ok(done + vs),
            Err(e) => Err(e),
        },
        env: rest.env,
    }
}

/// Running a file's forms in order: each well-parsed form is evaluated
/// against the environment left by the ones before it; a form's error
/// is reported, not propagated, so the forms after it still run, and
/// the environment changes of every evaluated form are kept.
pub open spec fn load_spec(forms: Seq<Result<Val, Seq<char>>>, env: EnvVal, fuel: nat) -> EnvVal
    decreases forms.len(),
{
    if forms.len() == 0 {
        env
    } else {
        let env1 = match forms[0] {
            Ok(v) => eval_spec(v, env, fuel).env,
            Err(_) => env,
        };
        load_spec(forms.drop_first(), env1, fuel)
    }
}

/// The models of a host's parsed forms.
pub open spec fn forms_model(forms: Vec<Result<AST, String>>) -> Seq<Result<Val, Seq<char>>> {
    Seq::new(
        forms@.len(),
        |i: int|
            match forms@[i] {
                Ok(a) => Ok(a@),
                Err(s) => Err(s@),
            },
    )
}

/// Currying associativity: supplying some arguments first and the rest
/// later goes through the very same full application — the same body
/// under the same binding table over the same environment — as
/// supplying them all at once, so the two routes have equal outcomes.
pub proof fn lemma_curry_then_call(l: LambdaVal, a1: Seq<Val>, a2: Seq<Val>, env: EnvVal, fuel: nat)
    requires
        a1.len() < l.params.len(),
        a1.len() + a2.len() >= l.params.len(),
        a1.len() + a2.len() == l.params.len() || l.vararg is Some,
    ensures
        call_spec(FunVal::Lambda(l), a1, env, fuel) == yield_val(
            Val::Fun(FunVal::Lambda(curry_model(l, a1))),
            env,
        ),
        call_spec(FunVal::Lambda(curry_model(l, a1)), a2, env, fuel) == call_spec(
            FunVal::Lambda(l),
            a1 + a2,
            env,
            fuel,
        ),
{
    crate::function::lemma_curry_then_bind(l, a1, a2);
}

} // verus!
