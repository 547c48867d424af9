use vstd::prelude::*;

use crate::env::{frames_preserved, Env};
use crate::semantics::{
    elems_prepend, eval_elems_spec, eval_spec, outcome_of, ElemsOutcome,
};
use crate::eval_error::{ErrVal, EvalError};
use crate::function::{FunVal, Function};
use crate::qexpr::QExpr;

verus! {

broadcast use vstd::std_specs::vec::group_vec_axioms, vstd::seq::group_seq_axioms;

/// A value of the language. The abstract syntax tree and the runtime
/// value are one and the same type: evaluation maps values to values.
#[derive(Debug)]
pub enum AST {
    Number(i128),
    Symbol(String),
    Literal(String),
    SExpr(Vec<AST>),
    QExpr(QExpr),
    Function(Function),
}

/// The mathematical shape of a value: strings become sequences of
/// characters, vectors become sequences, machine integers become `int`.
/// Contracts throughout the crate speak of values through this model.
pub enum Val {
    Num(int),
    Sym(Seq<char>),
    Lit(Seq<char>),
    SExpr(Seq<Val>),
    QExpr(Seq<Val>),
    Fun(FunVal),
}

impl AST {
    /// The model of a single value.
    pub open spec fn model(self) -> Val
        decreases self,
    {
        match self {
            AST::Number(n) => Val::Num(n as int),
            AST::Symbol(s) => Val::Sym(s@),
            AST::Literal(s) => Val::Lit(s@),
            AST::SExpr(es) => Val::SExpr(elems_model(es)),
            AST::QExpr(q) => Val::QExpr(elems_model(q.0)),
            AST::Function(f) => Val::Fun(f.model()),
        }
    }
}

/// The models of the elements of a vector of values, in order.
pub open spec fn elems_model(es: Vec<AST>) -> Seq<Val>
    decreases es,
{
    Seq::new(
        es@.len(),
        |i: int|
            if 0 <= i < es@.len() {
                es@[i].model()
            } else {
                Val::Num(0)
            },
    )
}

/// The models of a list of bindings: each pair of a name and a value.
pub open spec fn bindings_model(bs: Vec<(String, AST)>) -> Seq<(Seq<char>, Val)>
    decreases bs,
{
    Seq::new(
        bs@.len(),
        |i: int|
            if 0 <= i < bs@.len() {
                (bs@[i].0@, bs@[i].1.model())
            } else {
                (Seq::<char>::empty(), Val::Num(0))
            },
    )
}

impl View for AST {
    type V = Val;

    open spec fn view(&self) -> Val {
        (*self).model()
    }
}

/// The size of a value's model, the termination measure of everything
/// that walks a value structurally.
pub open spec fn vsize(v: Val) -> nat
    decreases v,
{
    match v {
        Val::Num(_) => 1,
        Val::Sym(_) => 1,
        Val::Lit(_) => 1,
        Val::SExpr(s) => 1 + seq_size(s),
        Val::QExpr(s) => 1 + seq_size(s),
        Val::Fun(f) => 1 + fun_size(f),
    }
}

pub open spec fn seq_size(s: Seq<Val>) -> nat
    decreases s, s.len() as int + 1,
{
    seq_size_to(s, s.len() as int)
}

pub open spec fn seq_size_to(s: Seq<Val>, n: int) -> nat
    decreases s, n,
{
    if n <= 0 || n > s.len() {
        0
    } else {
        seq_size_to(s, n - 1) + vsize(s[n - 1])
    }
}

pub open spec fn fun_size(f: FunVal) -> nat
    decreases f,
{
    match f {
        FunVal::Builtin(_) => 1,
        FunVal::Lambda(l) => 1 + ctx_size(l.context) + seq_size(l.body),
    }
}

pub open spec fn ctx_size(c: Seq<(Seq<char>, Val)>) -> nat
    decreases c, c.len() as int + 1,
{
    ctx_size_to(c, c.len() as int)
}

pub open spec fn ctx_size_to(c: Seq<(Seq<char>, Val)>, n: int) -> nat
    decreases c, n,
{
    if n <= 0 || n > c.len() {
        0
    } else {
        ctx_size_to(c, n - 1) + vsize(c[n - 1].1)
    }
}

/// Every element of a sequence weighs no more than the whole.
pub proof fn lemma_seq_size_elem(s: Seq<Val>, i: int, n: int)
    requires
        0 <= i < n <= s.len(),
    ensures
        vsize(s[i]) <= seq_size_to(s, n),
    decreases n,
{
    if i < n - 1 {
        lemma_seq_size_elem(s, i, n - 1);
    }
}

/// Every bound value of a context weighs no more than the whole.
pub proof fn lemma_ctx_size_elem(c: Seq<(Seq<char>, Val)>, i: int, n: int)
    requires
        0 <= i < n <= c.len(),
    ensures
        vsize(c[i].1) <= ctx_size_to(c, n),
    decreases n,
{
    if i < n - 1 {
        lemma_ctx_size_elem(c, i, n - 1);
    }
}

impl AST {
    /// The name of a value's kind, as the error messages use it.
    pub fn typ(&self) -> (r: &'static str)
        ensures
            r@ == spec_typ(self@),
    {
        match self {
            AST::Number(_) => "number",
            AST::Symbol(_) => "symbol",
            AST::Literal(_) => "string",
            AST::SExpr(_) => "S-expr",
            AST::QExpr(_) => "Q-expr",
            AST::Function(_) => "function",
        }
    }

    /// The number held by the value, or a type-mismatch error.
    pub fn number(self) -> (r: Result<i128, EvalError>)
        ensures
            self is Number ==> (r matches Ok(n) && self@ == Val::Num(n as int)),
            !(self is Number) ==> r == Err::<i128, EvalError>(EvalError::NotA("number", self)),
    {
        match self {
            AST::Number(x) => Ok(x),
            ast => Err(EvalError::NotA("number", ast)),
        }
    }

    /// The quoted expression held by the value, or a type-mismatch error.
    pub fn qexpr(self) -> (r: Result<QExpr, EvalError>)
        ensures
            self is QExpr ==> (r matches Ok(q) && self@ == Val::QExpr(q@)),
            !(self is QExpr) ==> r == Err::<QExpr, EvalError>(EvalError::NotA("Q-expr", self)),
    {
        match self {
            AST::QExpr(xs) => Ok(xs),
            ast => Err(EvalError::NotA("Q-expr", ast)),
        }
    }

    /// The symbol name held by the value, or a type-mismatch error.
    pub fn symbol(self) -> (r: Result<String, EvalError>)
        ensures
            self is Symbol ==> (r matches Ok(s) && self@ == Val::Sym(s@)),
            !(self is Symbol) ==> r == Err::<String, EvalError>(EvalError::NotA("symbol", self)),
    {
        match self {
            AST::Symbol(sym) => Ok(sym),
            ast => Err(EvalError::NotA("symbol", ast)),
        }
    }

    /// The string constant held by the value, or a type-mismatch error.
    pub fn literal(self) -> (r: Result<String, EvalError>)
        ensures
            self is Literal ==> (r matches Ok(s) && self@ == Val::Lit(s@)),
            !(self is Literal) ==> r == Err::<String, EvalError>(EvalError::NotA("string", self)),
    {
        match self {
            AST::Literal(lit) => Ok(lit),
            ast => Err(EvalError::NotA("string", ast)),
        }
    }

    /// The function held by the value, or a type-mismatch error.
    pub fn function(self) -> (r: Result<Function, EvalError>)
        ensures
            self is Function ==> (r matches Ok(f) && self@ == Val::Fun(f@)),
            !(self is Function) ==> r == Err::<Function, EvalError>(
                EvalError::NotA("function", self),
            ),
    {
        match self {
            AST::Function(fun) => Ok(fun),
            ast => Err(EvalError::NotA("function", ast)),
        }
    }
}

/// The kind names used by `typ` and by the `NotA` error.
pub open spec fn spec_typ(v: Val) -> Seq<char> {
    match v {
        Val::Num(_) => "number"@,
        Val::Sym(_) => "symbol"@,
        Val::Lit(_) => "string"@,
        Val::SExpr(_) => "S-expr"@,
        Val::QExpr(_) => "Q-expr"@,
        Val::Fun(_) => "function"@,
    }
}

/// The model of the unit value, an empty S-expression.
pub open spec fn unit_val() -> Val {
    Val::SExpr(Seq::empty())
}

impl Default for AST {
    /// The default value is the unit: an empty S-expression.
    fn default() -> (r: Self)
        ensures
            r@ == unit_val(),
    {
        let v: Vec<AST> = Vec::new();
        proof {
            assert(elems_model(v) =~= Seq::<Val>::empty());
        }
        AST::SExpr(v)
    }
}

/// Clones one value, preserving its model.
pub fn clone_ast(v: &AST) -> (r: AST)
    ensures
        r@ == v@,
    decreases vsize(v@), 0nat,
{
    match v {
        AST::Number(n) => AST::Number(*n),
        AST::Symbol(s) => AST::Symbol(s.clone()),
        AST::Literal(s) => AST::Literal(s.clone()),
        AST::SExpr(es) => {
            let copy = clone_elems(es);
            proof {
                assert(elems_model(copy) =~= elems_model(*es));
            }
            AST::SExpr(copy)
        },
        AST::QExpr(q) => AST::QExpr(crate::qexpr::clone_qexpr(q)),
        AST::Function(f) => AST::Function(crate::function::clone_function(f)),
    }
}

/// Clones each element of a vector of values, preserving the models.
pub(crate) fn clone_elems(es: &Vec<AST>) -> (r: Vec<AST>)
    ensures
        elems_model(r) == elems_model(*es),
    decreases seq_size(elems_model(*es)), 2nat,
{
    let mut out: Vec<AST> = Vec::new();
    let n = es.len();
    let mut i: usize = 0;
    while i < n
        invariant
            n == es@.len(),
            i <= n,
            out@.len() == i,
            forall|j: int| 0 <= j < i ==> elems_model(out)[j] == elems_model(*es)[j],
        decreases n - i,
    {
        proof {
            lemma_seq_size_elem(elems_model(*es), i as int, es@.len() as int);
        }
        let x = clone_at(es, i);
        out.push(x);
        i += 1;
    }
    proof {
        assert(elems_model(out) =~= elems_model(*es));
    }
    out
}

/// Clones the element at one index; a step of `clone_elems` whose
/// termination measure is the element's own size.
fn clone_at(es: &Vec<AST>, i: usize) -> (r: AST)
    requires
        i < es@.len(),
    ensures
        r@ == es@[i as int]@,
    decreases vsize(es@[i as int]@), 1nat,
{
    clone_ast(&es[i])
}

/// Clones a list of bindings, preserving the models of the pairs.
pub(crate) fn clone_bindings(bs: &Vec<(String, AST)>) -> (r: Vec<(String, AST)>)
    ensures
        bindings_model(r) == bindings_model(*bs),
    decreases ctx_size(bindings_model(*bs)), 2nat,
{
    let mut out: Vec<(String, AST)> = Vec::new();
    let n = bs.len();
    let mut i: usize = 0;
    while i < n
        invariant
            n == bs@.len(),
            i <= n,
            out@.len() == i,
            forall|j: int| 0 <= j < i ==> bindings_model(out)[j] == bindings_model(*bs)[j],
        decreases n - i,
    {
        proof {
            lemma_ctx_size_elem(bindings_model(*bs), i as int, bs@.len() as int);
        }
        let x = clone_binding_at(bs, i);
        out.push(x);
        i += 1;
    }
    proof {
        assert(bindings_model(out) =~= bindings_model(*bs));
    }
    out
}

/// Clones the binding at one index.
fn clone_binding_at(bs: &Vec<(String, AST)>, i: usize) -> (r: (String, AST))
    requires
        i < bs@.len(),
    ensures
        r.0@ == bs@[i as int].0@,
        r.1@ == bs@[i as int].1@,
    decreases vsize(bs@[i as int].1@), 1nat,
{
    let pair = &bs[i];
    (pair.0.clone(), clone_ast(&pair.1))
}

impl From<i128> for AST {
    /// A number wrapped as a value.
    fn from(x: i128) -> (r: Self) {
        AST::Number(x)
    }
}

impl vstd::std_specs::convert::FromSpecImpl<i128> for AST {
    open spec fn obeys_from_spec() -> bool {
        true
    }

    open spec fn from_spec(x: i128) -> Self {
        AST::Number(x)
    }
}

impl From<QExpr> for AST {
    /// A quoted expression wrapped as a value.
    fn from(x: QExpr) -> (r: Self) {
        AST::QExpr(x)
    }
}

impl vstd::std_specs::convert::FromSpecImpl<QExpr> for AST {
    open spec fn obeys_from_spec() -> bool {
        true
    }

    open spec fn from_spec(x: QExpr) -> Self {
        AST::QExpr(x)
    }
}

impl Clone for AST {
    /// Cloning preserves the model of the value.
    fn clone(&self) -> (r: Self)
        ensures
            r@ == self@,
    {
        clone_ast(self)
    }
}

impl AST {
    /// Evaluates a value: strict, depth-first, left to right —
    /// exactly the mathematical evaluation relation `eval_spec`, both
    /// in the value or error returned and in what the environment
    /// becomes.
    ///
    /// Numbers, strings, quoted expressions and functions evaluate to
    /// themselves; a symbol to what the environment binds it to; the
    /// empty S-expression to itself, the unit. A one-element
    /// S-expression is transparent parenthesisation. A longer one
    /// evaluates every element against the environment, the first
    /// failure winning, and then applies the first result, which must
    /// be a function, to the rest.
    ///
    /// `fuel` bounds how deeply function application can nest, so that
    /// evaluation provably terminates; it is spent only on entering a
    /// body (`\`, `eval`, `if`), never on walking an expression.
    pub fn eval(self, env: &mut Env, fuel: u64) -> (r: Result<AST, EvalError>)
        ensures
            frames_preserved(old(env)@, final(env)@),
            outcome_of(r, final(env)@) == eval_spec(self@, old(env)@, fuel as nat),
            (self is Number || self is Literal || self is QExpr || self is Function) ==> (r
                == Ok::<AST, EvalError>(self) && final(env)@ == old(env)@),
            self matches AST::SExpr(es) ==> (es@.len() == 0 ==> (r == Ok::<AST, EvalError>(self)
                && final(env)@ == old(env)@)),
        decreases fuel, vsize(self@), 0nat,
    {
        let ghost m = self@;
        let ghost env0 = old(env)@;
        match self {
            AST::Symbol(var) => env.get(var),
            AST::SExpr(es) => {
                if es.len() == 0 {
                    return Ok(AST::SExpr(es));
                }
                let ghost eseq = elems_model(es);
                if es.len() == 1 {
                    let mut single = es;
                    match single.pop() {
                        Some(x) => {
                            proof {
                                assert(x@ == eseq[0]);
                                lemma_seq_size_elem(eseq, 0, 1);
                            }
                            x.eval(env, fuel)
                        },
                        None => {
                            proof {
                                assert(false);
                            }
                            Err(EvalError::Message("no arguments"))
                        },
                    }
                } else {
                    let mut rest = es;
                    let n = rest.len();
                    proof {
                        assert(vsize(m) == 1 + seq_size(eseq));
                    }
                    let mut results: Vec<AST> = Vec::new();
                    let mut i: usize = 0;
                    proof {
                        let whole = eval_elems_spec(eseq, 0, env0, fuel as nat);
                        assert(elems_model(results) =~= Seq::<Val>::empty());
                        match whole.res {
                            Ok(vs) => {
                                assert(Seq::<Val>::empty() + vs =~= vs);
                            },
                            Err(_) => {},
                        }
                        assert(elems_prepend(elems_model(results), whole) == whole);
                    }
                    while i < n
                        invariant
                            n == eseq.len(),
                            n >= 2,
                            i <= n,
                            self is SExpr,
                            self@ == m,
                            m == Val::SExpr(eseq),
                            env0 == old(env)@,
                            rest@.len() == n - i,
                            forall|k: int|
                                0 <= k < rest@.len() ==> (#[trigger] rest@[k])@ == eseq[k + i],
                            results@.len() == i,
                            eval_elems_spec(eseq, 0, env0, fuel as nat) == elems_prepend(
                                elems_model(results),
                                eval_elems_spec(eseq, i as int, env@, fuel as nat),
                            ),
                            vsize(m) > seq_size_to(eseq, n as int),
                            frames_preserved(old(env)@, env@),
                        decreases n - i,
                    {
                        let x = rest.remove(0);
                        proof {
                            assert(x@ == eseq[i as int]);
                            lemma_seq_size_elem(eseq, i as int, n as int);
                        }
                        let ghost env_pre = env@;
                        let ghost done_pre = elems_model(results);
                        let step = x.eval(env, fuel);
                        match step {
                            Ok(v) => {
                                results.push(v);
                                proof {
                                    let next = eval_elems_spec(
                                        eseq,
                                        i as int + 1,
                                        env@,
                                        fuel as nat,
                                    );
                                    assert(elems_model(results) =~= done_pre.push(v@));
                                    match next.res {
                                        Ok(xs) => {
                                            assert(done_pre + (seq![v@] + xs) =~= done_pre.push(
                                                v@,
                                            ) + xs);
                                        },
                                        Err(_) => {},
                                    }
                                    assert(elems_prepend(
                                        done_pre,
                                        eval_elems_spec(eseq, i as int, env_pre, fuel as nat),
                                    ) == elems_prepend(elems_model(results), next));
                                }
                            },
                            Err(e) => {
                                proof {
                                    assert(eval_elems_spec(eseq, 0, env0, fuel as nat)
                                        == ElemsOutcome { res: Err(e@), env: env@ });
                                    assert(eval_spec(m, env0, fuel as nat) == crate::semantics::fail(
                                        e@,
                                        env@,
                                    ));
                                }
                                return Err(e);
                            },
                        }
                        i += 1;
                    }
                    proof {
                        let done = elems_model(results);
                        assert(eval_elems_spec(eseq, n as int, env@, fuel as nat)
                            == ElemsOutcome { res: Ok(Seq::<Val>::empty()), env: env@ });
                        assert(done + Seq::<Val>::empty() =~= done);
                        assert(eval_elems_spec(eseq, 0, env0, fuel as nat) == ElemsOutcome {
                            res: Ok(done),
                            env: env@,
                        });
                    }
                    let ghost done = elems_model(results);
                    let first = results.remove(0);
                    proof {
                        assert(first@ == done[0]);
                    }
                    match first.function() {
                        Ok(f) => {
                            let ghost argm = elems_model(results);
                            let ghost env_call = env@;
                            let r = f.call(env, results, fuel);
                            proof {
                                assert(argm =~= done.drop_first());
                                assert(eval_spec(m, env0, fuel as nat) == crate::semantics::call_spec(
                                    f@,
                                    done.drop_first(),
                                    env_call,
                                    fuel as nat,
                                ));
                            }
                            r
                        },
                        Err(e) => {
                            proof {
                                assert(!(done[0] is Fun));
                                assert(eval_spec(m, env0, fuel as nat) == crate::semantics::fail(
                                    ErrVal::NotA("function"@, done[0]),
                                    env@,
                                ));
                            }
                            Err(e)
                        },
                    }
                }
            },
            ast => Ok(ast),
        }
    }
}

/// Decides equality of two values: true exactly when the models are
/// equal, so values of different kinds are never equal, numeric
/// equality is exact, and functions compare builtins by identity and
/// closures structurally.
pub fn values_equal(a: &AST, b: &AST) -> (r: bool)
    ensures
        r == (a@ == b@),
    decreases vsize(a@), 0nat,
{
    match (a, b) {
        (AST::Number(x), AST::Number(y)) => *x == *y,
        (AST::Symbol(x), AST::Symbol(y)) => x.eq(y),
        (AST::Literal(x), AST::Literal(y)) => x.eq(y),
        (AST::SExpr(x), AST::SExpr(y)) => elems_equal(x, y),
        (AST::QExpr(x), AST::QExpr(y)) => elems_equal(&x.0, &y.0),
        (AST::Function(x), AST::Function(y)) => crate::function::functions_equal(x, y),
        _ => {
            proof {
                assert(a@ != b@);
            }
            false
        },
    }
}

/// Decides equality of two element lists, model for model.
pub(crate) fn elems_equal(x: &Vec<AST>, y: &Vec<AST>) -> (r: bool)
    ensures
        r == (elems_model(*x) == elems_model(*y)),
    decreases seq_size(elems_model(*x)), 2nat,
{
    if x.len() != y.len() {
        return false;
    }
    let n = x.len();
    let mut i: usize = 0;
    while i < n
        invariant
            n == x@.len(),
            n == y@.len(),
            i <= n,
            forall|j: int| 0 <= j < i ==> elems_model(*x)[j] == elems_model(*y)[j],
        decreases n - i,
    {
        proof {
            lemma_seq_size_elem(elems_model(*x), i as int, x@.len() as int);
        }
        if !values_equal_at(x, y, i) {
            proof {
                assert(elems_model(*x)[i as int] != elems_model(*y)[i as int]);
            }
            return false;
        }
        i += 1;
    }
    proof {
        assert(elems_model(*x) =~= elems_model(*y));
    }
    true
}

/// Compares the elements at one index; a step of `elems_equal` whose
/// termination measure is the element's own size.
fn values_equal_at(x: &Vec<AST>, y: &Vec<AST>, i: usize) -> (r: bool)
    requires
        i < x@.len(),
        i < y@.len(),
    ensures
        r == (x@[i as int]@ == y@[i as int]@),
    decreases vsize(x@[i as int]@), 1nat,
{
    values_equal(&x[i], &y[i])
}

/// Decides equality of two binding lists, pair for pair.
pub(crate) fn bindings_equal(x: &Vec<(String, AST)>, y: &Vec<(String, AST)>) -> (r: bool)
    ensures
        r == (bindings_model(*x) == bindings_model(*y)),
    decreases ctx_size(bindings_model(*x)), 2nat,
{
    if x.len() != y.len() {
        return false;
    }
    let n = x.len();
    let mut i: usize = 0;
    while i < n
        invariant
            n == x@.len(),
            n == y@.len(),
            i <= n,
            forall|j: int| 0 <= j < i ==> bindings_model(*x)[j] == bindings_model(*y)[j],
        decreases n - i,
    {
        proof {
            lemma_ctx_size_elem(bindings_model(*x), i as int, x@.len() as int);
        }
        if !binding_equal_at(x, y, i) {
            proof {
                assert(bindings_model(*x)[i as int] != bindings_model(*y)[i as int]);
            }
            return false;
        }
        i += 1;
    }
    proof {
        assert(bindings_model(*x) =~= bindings_model(*y));
    }
    true
}

/// Compares the bindings at one index.
fn binding_equal_at(x: &Vec<(String, AST)>, y: &Vec<(String, AST)>, i: usize) -> (r: bool)
    requires
        i < x@.len(),
        i < y@.len(),
    ensures
        r == (x@[i as int].0@ == y@[i as int].0@ && x@[i as int].1@ == y@[i as int].1@),
    decreases vsize(x@[i as int].1@), 1nat,
{
    let px = &x[i];
    let py = &y[i];
    px.0.eq(&py.0) && values_equal(&px.1, &py.1)
}

} // verus!
