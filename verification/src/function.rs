use vstd::prelude::*;

use crate::ast::{
    bindings_model, clone_bindings, ctx_size, elems_model, seq_size, Val, AST,
};
use crate::env::{frames_preserved, Env};
use crate::eval_error::{vararg_err, ErrVal, EvalError, Unexpected};
use crate::qexpr::{clone_qexpr, QExpr};

verus! {

broadcast use vstd::std_specs::vec::group_vec_axioms, vstd::seq::group_seq_axioms;

/// The closed set of primitive operations. Builtins are compared by
/// this tag, so equality of two builtins is equality of identity.
#[derive(Clone, Copy, Debug, PartialEq, Eq, Structural)]
pub enum Builtin {
    Add,
    Sub,
    Mul,
    Div,
    Lambda,
    Assign,
    Less,
    Eq,
    List,
    Head,
    Tail,
    Join,
    Eval,
    Def,
    If,
    Load,
    Print,
    Error,
    Exit,
}

/// A callable value: a primitive operation or a user-defined closure.
#[derive(Debug)]
pub enum Function {
    Builtin(Builtin),
    Lambda(Lambda),
}

/// A user-defined closure: a captured context of already-bound names,
/// the remaining formal parameters, an optional variadic name bound
/// from a trailing `& name` marker, and the body, kept as a quoted
/// expression and evaluated as an S-expression when invoked.
/// Lambdas are immutable once constructed; currying builds new ones.
#[derive(Debug)]
pub struct Lambda {
    pub context: Vec<(String, AST)>,
    pub params: Vec<String>,
    pub vararg: Option<String>,
    pub body: QExpr,
}

/// The mathematical shape of a callable value.
pub enum FunVal {
    Builtin(Builtin),
    Lambda(LambdaVal),
}

/// The mathematical shape of a closure.
pub struct LambdaVal {
    pub context: Seq<(Seq<char>, Val)>,
    pub params: Seq<Seq<char>>,
    pub vararg: Option<Seq<char>>,
    pub body: Seq<Val>,
}

/// The models of a list of parameter names.
pub open spec fn params_model(ps: Vec<String>) -> Seq<Seq<char>> {
    Seq::new(ps@.len(), |i: int| ps@[i]@)
}

/// The model of an optional parameter name.
pub open spec fn opt_name_model(o: Option<String>) -> Option<Seq<char>> {
    match o {
        Some(s) => Some(s@),
        None => None,
    }
}

impl Lambda {
    pub open spec fn model(self) -> LambdaVal
        decreases self,
    {
        LambdaVal {
            context: bindings_model(self.context),
            params: params_model(self.params),
            vararg: opt_name_model(self.vararg),
            body: elems_model(self.body.0),
        }
    }
}

impl View for Lambda {
    type V = LambdaVal;

    open spec fn view(&self) -> LambdaVal {
        (*self).model()
    }
}

impl Function {
    pub open spec fn model(self) -> FunVal
        decreases self,
    {
        match self {
            Function::Builtin(b) => FunVal::Builtin(b),
            Function::Lambda(l) => FunVal::Lambda(l.model()),
        }
    }
}

impl View for Function {
    type V = FunVal;

    open spec fn view(&self) -> FunVal {
        (*self).model()
    }
}

/// Clones a list of parameter names, preserving the models.
pub(crate) fn clone_params(ps: &Vec<String>) -> (r: Vec<String>)
    ensures
        params_model(r) == params_model(*ps),
{
    let mut out: Vec<String> = Vec::new();
    let n = ps.len();
    let mut i: usize = 0;
    while i < n
        invariant
            n == ps@.len(),
            i <= n,
            out@.len() == i,
            forall|j: int| 0 <= j < i ==> #[trigger] out@[j]@ == ps@[j]@,
        decreases n - i,
    {
        out.push(ps[i].clone());
        i += 1;
    }
    proof {
        assert(params_model(out) =~= params_model(*ps));
    }
    out
}

/// Clones a closure, preserving its model.
pub fn clone_lambda(l: &Lambda) -> (r: Lambda)
    ensures
        r@ == l@,
    decreases ctx_size(l@.context) + seq_size(l@.body), 4nat,
{
    let vararg = match &l.vararg {
        Some(s) => Some(s.clone()),
        None => None,
    };
    Lambda {
        context: clone_bindings(&l.context),
        params: clone_params(&l.params),
        vararg,
        body: clone_qexpr(&l.body),
    }
}

/// Clones a callable value, preserving its model.
pub fn clone_function(f: &Function) -> (r: Function)
    ensures
        r@ == f@,
    decreases crate::ast::fun_size(f@), 5nat,
{
    match f {
        Function::Builtin(b) => Function::Builtin(*b),
        Function::Lambda(l) => Function::Lambda(clone_lambda(l)),
    }
}

impl Clone for Function {
    /// Cloning preserves the model.
    fn clone(&self) -> (r: Self)
        ensures
            r@ == self@,
    {
        clone_function(self)
    }
}

impl Clone for Lambda {
    /// Cloning preserves the model.
    fn clone(&self) -> (r: Self)
        ensures
            r@ == self@,
    {
        clone_lambda(self)
    }
}

/// Decides equality of two callable values: builtins by identity,
/// closures structurally.
pub fn functions_equal(x: &Function, y: &Function) -> (r: bool)
    ensures
        r == (x@ == y@),
    decreases crate::ast::fun_size(x@), 5nat,
{
    match (x, y) {
        (Function::Builtin(bx), Function::Builtin(by)) => *bx == *by,
        (Function::Lambda(lx), Function::Lambda(ly)) => lambdas_equal(lx, ly),
        _ => {
            proof {
                assert(x@ != y@);
            }
            false
        },
    }
}

/// Decides structural equality of two closures: same captured context,
/// same remaining parameters, same variadic name, same body.
pub fn lambdas_equal(x: &Lambda, y: &Lambda) -> (r: bool)
    ensures
        r == (x@ == y@),
    decreases ctx_size(x@.context) + seq_size(x@.body), 4nat,
{
    let ctx_eq = crate::ast::bindings_equal(&x.context, &y.context);
    let params_eq = names_equal(&x.params, &y.params);
    let va_eq = match (&x.vararg, &y.vararg) {
        (Some(a), Some(b)) => a.eq(b),
        (None, None) => true,
        _ => false,
    };
    let body_eq = crate::ast::elems_equal(&x.body.0, &y.body.0);
    ctx_eq && params_eq && va_eq && body_eq
}

/// Decides equality of two name lists, view for view.
fn names_equal(x: &Vec<String>, y: &Vec<String>) -> (r: bool)
    ensures
        r == (params_model(*x) == params_model(*y)),
{
    if x.len() != y.len() {
        proof {
            assert(params_model(*x).len() != params_model(*y).len());
        }
        return false;
    }
    let n = x.len();
    let mut i: usize = 0;
    while i < n
        invariant
            n == x@.len(),
            n == y@.len(),
            i <= n,
            forall|j: int| 0 <= j < i ==> #[trigger] x@[j]@ == y@[j]@,
        decreases n - i,
    {
        if !x[i].eq(&y[i]) {
            proof {
                assert(params_model(*x)[i as int] != params_model(*y)[i as int]);
            }
            return false;
        }
        i += 1;
    }
    proof {
        assert(params_model(*x) =~= params_model(*y));
    }
    true
}

/// Pairs parameter names with argument values, position by position,
/// stopping at the shorter list.
pub open spec fn zip_bind(ps: Seq<Seq<char>>, vs: Seq<Val>) -> Seq<(Seq<char>, Val)> {
    Seq::new(
        if ps.len() <= vs.len() {
            ps.len()
        } else {
            vs.len()
        },
        |i: int| (ps[i], vs[i]),
    )
}

/// The closure produced by partial application: the supplied arguments
/// are merged into the captured context, and the parameters that they
/// bound are no longer expected.
pub open spec fn curry_model(l: LambdaVal, args: Seq<Val>) -> LambdaVal {
    LambdaVal {
        context: l.context + zip_bind(l.params.take(args.len() as int), args),
        params: l.params.skip(args.len() as int),
        vararg: l.vararg,
        body: l.body,
    }
}

/// The bindings of a full application: the captured context, then each
/// formal parameter bound positionally, then — for a variadic closure —
/// the variadic name bound to a Q-expression of the surplus arguments.
pub open spec fn bind_model(l: LambdaVal, args: Seq<Val>) -> Seq<(Seq<char>, Val)> {
    let fixed = l.context + zip_bind(l.params, args.take(l.params.len() as int));
    match l.vararg {
        Some(name) => fixed + seq![(name, Val::QExpr(args.skip(l.params.len() as int)))],
        None => fixed,
    }
}

/// Currying then applying binds exactly what applying all at once
/// binds: supplying `a1` first and `a2` later builds the same bindings,
/// for the same body, as supplying `a1 + a2` in one call.
pub proof fn lemma_curry_then_bind(l: LambdaVal, a1: Seq<Val>, a2: Seq<Val>)
    requires
        a1.len() < l.params.len(),
        a1.len() + a2.len() >= l.params.len(),
    ensures
        curry_model(l, a1).params.len() == l.params.len() - a1.len(),
        curry_model(l, a1).body == l.body,
        curry_model(l, a1).vararg == l.vararg,
        bind_model(curry_model(l, a1), a2) == bind_model(l, a1 + a2),
{
    let c = curry_model(l, a1);
    let n = l.params.len() as int;
    let k = a1.len() as int;
    assert(c.context + zip_bind(c.params, a2.take(n - k)) =~= l.context + zip_bind(
        l.params,
        (a1 + a2).take(n),
    ));
    assert(a2.skip(n - k) =~= (a1 + a2).skip(n));
    match l.vararg {
        Some(name) => {
            assert(bind_model(c, a2) =~= bind_model(l, a1 + a2));
        },
        None => {
            assert(bind_model(c, a2) =~= bind_model(l, a1 + a2));
        },
    }
}

impl Lambda {
    /// Builds a closure from a parameter list and a body. A `&` in the
    /// parameter list marks the next name as variadic; more than one
    /// name after the marker is a construction-time error.
    pub fn new(params: Vec<String>, body: QExpr) -> (r: Result<AST, EvalError>)
        ensures
            ({
                let ps = params_model(params);
                let k = first_amp(ps, 0);
                &&& (ps.len() - k > 2 ==> (r matches Err(e) && e@ == vararg_err()))
                &&& (ps.len() - k <= 2 ==> (r matches Ok(a) && a@ == Val::Fun(
                    FunVal::Lambda(
                        LambdaVal {
                            context: Seq::empty(),
                            params: ps.take(k),
                            vararg: if k + 2 == ps.len() {
                                Some(ps[ps.len() - 1])
                            } else {
                                None
                            },
                            body: body@,
                        },
                    ),
                )))
            }),
    {
        let ghost ps = params_model(params);
        let mut params = params;
        let n = params.len();
        let k = find_amp(&params);
        if n - k > 2 {
            return Err(EvalError::Message("more than one param after &"));
        }
        let vararg = if n >= 2 && k == n - 2 {
            Some(params[n - 1].clone())
        } else {
            None
        };
        params.truncate(k);
        let ctx: Vec<(String, AST)> = Vec::new();
        proof {
            assert(bindings_model(ctx) =~= Seq::<(Seq<char>, Val)>::empty());
        }
        let lam = Lambda { context: ctx, params, vararg, body };
        proof {
            assert(params_model(lam.params) =~= ps.take(k as int));
            assert(bindings_model(lam.context) == Seq::<(Seq<char>, Val)>::empty());
            assert(opt_name_model(lam.vararg) == (if k + 2 == ps.len() {
                Some(ps[ps.len() - 1])
            } else {
                None
            }));
            assert(lam@ == LambdaVal {
                context: Seq::empty(),
                params: ps.take(first_amp(ps, 0)),
                vararg: if first_amp(ps, 0) + 2 == ps.len() {
                    Some(ps[ps.len() - 1])
                } else {
                    None
                },
                body: elems_model(lam.body.0),
            });
        }
        Ok(AST::Function(Function::Lambda(lam)))
    }
}

/// Finds the position of the variadic marker `&` in a parameter list,
/// or the list's length when there is none.
fn find_amp(params: &Vec<String>) -> (k: usize)
    ensures
        k as int == first_amp(params_model(*params), 0),
        k <= params@.len(),
{
    let ghost ps = params_model(*params);
    let n = params.len();
    let amp = String::from_str("&");
    proof {
        reveal_strlit("&");
    }
    let mut k: usize = 0;
    while k < n
        invariant
            n == ps.len(),
            k <= n,
            params@.len() == n,
            ps == params_model(*params),
            amp@ == "&"@,
            forall|j: int| 0 <= j < k ==> ps[j] != "&"@,
        decreases n - k,
    {
        proof {
            assert(ps[k as int] == params@[k as int]@);
        }
        if params[k].eq(&amp) {
            proof {
                lemma_first_amp(ps, 0, k as int);
            }
            return k;
        }
        k += 1;
    }
    proof {
        lemma_first_amp(ps, 0, n as int);
    }
    n
}

impl Function {
    /// Calls a function on an already-evaluated argument list.
    ///
    /// A builtin validates its own arity; a closure follows the
    /// curry/apply convention: fewer arguments than parameters yields
    /// a new, more specific closure; more than the parameters of a
    /// non-variadic closure is an arity error; otherwise the closure's
    /// body runs in a fresh scope over the calling environment.
    pub fn call(&self, env: &mut Env, args: Vec<AST>, fuel: u64) -> (r: Result<AST, EvalError>)
        ensures
            frames_preserved(old(env)@, final(env)@),
            crate::semantics::outcome_of(r, final(env)@) == crate::semantics::call_spec(
                (*self)@,
                elems_model(args),
                old(env)@,
                fuel as nat,
            ),
        decreases fuel, 0nat, 3nat,
    {
        match self {
            Function::Builtin(op) => crate::builtins::dispatch(*op, env, args, fuel),
            Function::Lambda(f) => f.call(env, args, fuel),
        }
    }
}

impl Lambda {
    /// Calls the closure: curry, arity error, or apply, by the count
    /// of arguments against the count of remaining parameters.
    pub fn call(&self, env: &mut Env, args: Vec<AST>, fuel: u64) -> (r: Result<AST, EvalError>)
        ensures
            frames_preserved(old(env)@, final(env)@),
            crate::semantics::outcome_of(r, final(env)@) == crate::semantics::call_spec(
                FunVal::Lambda((*self)@),
                elems_model(args),
                old(env)@,
                fuel as nat,
            ),
        decreases fuel, 0nat, 2nat,
    {
        let expected = self.params.len();
        let given = args.len();
        if given < expected {
            Ok(AST::Function(Function::Lambda(self.curry(args))))
        } else if given > expected && self.vararg.is_none() {
            Err(EvalError::ArgsMismatch(Unexpected { expected, given }))
        } else {
            self.apply(env, args, fuel)
        }
    }

    /// Partial application: a new closure whose captured context has
    /// absorbed the supplied arguments, keeping the original intact.
    pub fn curry(&self, args: Vec<AST>) -> (r: Lambda)
        requires
            args@.len() <= self@.params.len(),
        ensures
            r@ == curry_model(self@, elems_model(args)),
    {
        let n = args.len();
        let context = self.extend(args);
        let total = self.params.len();
        let mut params: Vec<String> = Vec::new();
        let mut i: usize = n;
        while i < total
            invariant
                n <= i <= total,
                total == self@.params.len(),
                self@.params == params_model(self.params),
                params@.len() == i - n,
                forall|j: int| 0 <= j < i - n ==> #[trigger] params@[j]@ == self@.params[j + n],
            decreases total - i,
        {
            params.push(self.params[i].clone());
            i += 1;
        }
        let vararg = match &self.vararg {
            Some(s) => Some(s.clone()),
            None => None,
        };
        let r = Lambda { context, params, vararg, body: clone_qexpr(&self.body) };
        proof {
            assert(params_model(r.params) =~= self@.params.skip(n as int));
            assert(bindings_model(r.context) =~= curry_model(self@, elems_model(args)).context);
        }
        r
    }

    /// Full application: binds the captured context, the parameters,
    /// and — for a variadic closure — the surplus arguments as one
    /// Q-expression, then evaluates the body as an S-expression in a
    /// fresh scope whose parent chain is the calling environment.
    fn apply(&self, env: &mut Env, args: Vec<AST>, fuel: u64) -> (r: Result<AST, EvalError>)
        requires
            args@.len() >= self@.params.len(),
        ensures
            frames_preserved(old(env)@, final(env)@),
            crate::semantics::outcome_of(r, final(env)@) == crate::semantics::apply_spec(
                (*self)@,
                elems_model(args),
                old(env)@,
                fuel as nat,
            ),
        decreases fuel, 0nat, 1nat,
    {
        if fuel == 0 {
            return Err(EvalError::Message("recursion too deep"));
        }
        let ctx = self.bindings_for(args);
        env.push_scope(crate::env::Scope::new(ctx));
        proof {
            assert(env@ == crate::semantics::push_frame(
                old(env)@,
                bind_model((*self)@, elems_model(args)),
            ));
        }
        let body = clone_qexpr(&self.body);
        let r = body.eval(env, fuel - 1);
        proof {
            assert(env@.scopes.len() == old(env)@.scopes.len() + 1);
        }
        env.pop_scope();
        proof {
            assert(env@.scopes.len() == old(env)@.scopes.len());
            assert forall|i: int|
                0 <= i < old(env)@.scopes.len() - 1 implies env@.scopes[i] == #[trigger] old(
                env,
            )@.scopes[i] by {
                assert(env@.scopes[i] == old(env)@.scopes.push(
                    bindings_model(ctx),
                ).index(i));
            }
        }
        r
    }

    /// The binding table that one full application evaluates its body
    /// under: exactly `bind_model` of the closure and the arguments.
    /// Together with `lemma_curry_then_bind`, this pins the currying
    /// algebra: supplying arguments in two calls builds this same
    /// table, for this same body, as supplying them in one.
    pub fn bindings_for(&self, args: Vec<AST>) -> (r: crate::env::Bindings)
        requires
            args@.len() >= self@.params.len(),
        ensures
            bindings_model(r) == bind_model(self@, elems_model(args)),
    {
        let ghost am = elems_model(args);
        let ghost plen = self@.params.len() as int;
        let mut fixed = args;
        let mut ctx: crate::env::Bindings;
        match &self.vararg {
            Some(name) => {
                let surplus = fixed.split_off(self.params.len());
                proof {
                    assert(elems_model(fixed) =~= am.take(plen));
                    assert(elems_model(surplus) =~= am.skip(plen));
                }
                let ghost fm = elems_model(fixed);
                ctx = self.extend(fixed);
                proof {
                    assert(zip_bind(self@.params, fm) =~= zip_bind(self@.params, am.take(plen)));
                }
                let ghost pre = bindings_model(ctx);
                let tail = QExpr(surplus);
                ctx.push((name.clone(), AST::QExpr(tail)));
                proof {
                    assert(bindings_model(ctx) =~= pre.push((name@, Val::QExpr(am.skip(plen)))));
                    assert(bindings_model(ctx) =~= bind_model(self@, am));
                }
            },
            None => {
                let ghost fm = elems_model(fixed);
                ctx = self.extend(fixed);
                proof {
                    assert(zip_bind(self@.params, fm) =~= zip_bind(
                        self@.params,
                        am.take(plen),
                    ));
                    assert(bindings_model(ctx) =~= bind_model(self@, am));
                }
            },
        }
        ctx
    }

    /// The captured context extended by binding each remaining formal
    /// parameter, in order, to the matching argument.
    fn extend(&self, args: Vec<AST>) -> (r: crate::env::Bindings)
        ensures
            bindings_model(r) == self@.context + zip_bind(self@.params, elems_model(args)),
    {
        let ghost vals = elems_model(args);
        let mut out = crate::ast::clone_bindings(&self.context);
        let ghost base = bindings_model(out);
        let mut rest = args;
        let n = if self.params.len() <= rest.len() {
            self.params.len()
        } else {
            rest.len()
        };
        let mut i: usize = 0;
        while i < n
            invariant
                n <= self@.params.len(),
                n <= vals.len(),
                n == if self@.params.len() <= vals.len() {
                    self@.params.len()
                } else {
                    vals.len()
                },
                self@.params == params_model(self.params),
                base == self@.context,
                i <= n,
                rest@.len() == vals.len() - i,
                forall|k: int| 0 <= k < rest@.len() ==> (#[trigger] rest@[k])@ == vals[k + i],
                bindings_model(out) == base + zip_bind(self@.params, vals).take(i as int),
            decreases n - i,
        {
            let ghost pre = bindings_model(out);
            let x = rest.remove(0);
            proof {
                assert(x@ == vals[i as int]);
            }
            out.push((self.params[i].clone(), x));
            proof {
                assert(bindings_model(out) =~= pre.push(
                    (self@.params[i as int], vals[i as int]),
                ));
                assert(pre.push((self@.params[i as int], vals[i as int])) =~= base + zip_bind(
                    self@.params,
                    vals,
                ).take(i as int + 1));
            }
            i += 1;
        }
        proof {
            assert(zip_bind(self@.params, vals).take(n as int) =~= zip_bind(self@.params, vals));
        }
        out
    }
}

/// The index of the first `&` marker in a parameter list at or after
/// `from`, or the list's length when there is none.
pub open spec fn first_amp(ps: Seq<Seq<char>>, from: int) -> int
    decreases ps.len() - from,
{
    if from < 0 || from >= ps.len() {
        ps.len() as int
    } else if ps[from] == "&"@ {
        from
    } else {
        first_amp(ps, from + 1)
    }
}

/// A scan that stopped at `k` without seeing a marker, or stopped on
/// one, has found `first_amp`.
proof fn lemma_first_amp(ps: Seq<Seq<char>>, from: int, k: int)
    requires
        0 <= from <= k <= ps.len(),
        forall|j: int| from <= j < k ==> ps[j] != "&"@,
        k < ps.len() ==> ps[k] == "&"@,
    ensures
        first_amp(ps, from) == k,
    decreases k - from,
{
    if from < k {
        lemma_first_amp(ps, from + 1, k);
    }
}

} // verus!
