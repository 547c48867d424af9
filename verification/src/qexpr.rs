use vstd::prelude::*;

use crate::ast::{clone_elems, elems_model, seq_size, vsize, Val, AST};
use crate::env::{frames_preserved, Env};
use crate::eval_error::{empty_qexpr_err, ErrVal, EvalError};

verus! {

broadcast use vstd::std_specs::vec::group_vec_axioms, vstd::seq::group_seq_axioms;

/// A quoted expression: an ordered list of values that is data, never
/// evaluated on sight. It is the language's only collection type.
#[derive(Debug)]
pub struct QExpr(pub Vec<AST>);

impl View for QExpr {
    type V = Seq<Val>;

    open spec fn view(&self) -> Seq<Val> {
        elems_model(self.0)
    }
}

impl From<Vec<AST>> for QExpr {
    /// A list of values taken as inert data.
    fn from(vec: Vec<AST>) -> (r: Self) {
        QExpr(vec)
    }
}

impl vstd::std_specs::convert::FromSpecImpl<Vec<AST>> for QExpr {
    open spec fn obeys_from_spec() -> bool {
        true
    }

    open spec fn from_spec(vec: Vec<AST>) -> Self {
        QExpr(vec)
    }
}

/// Clones a quoted expression, preserving its model.
pub fn clone_qexpr(q: &QExpr) -> (r: QExpr)
    ensures
        r@ == q@,
    decreases seq_size(q@), 3nat,
{
    QExpr(clone_elems(&q.0))
}

impl Clone for QExpr {
    /// Cloning preserves the model.
    fn clone(&self) -> (r: Self)
        ensures
            r@ == self@,
    {
        clone_qexpr(self)
    }
}

impl QExpr {
    /// A one-element list holding the first element, or the
    /// empty-Q-expression error when there is none.
    pub fn head(self) -> (r: Result<QExpr, EvalError>)
        ensures
            self@.len() == 0 ==> (r matches Err(e) && e@ == empty_qexpr_err()),
            self@.len() > 0 ==> (r matches Ok(q) && q@ =~= seq![self@[0]]),
    {
        let mut v = self.0;
        if v.len() == 0 {
            Err(EvalError::Message("qexpr is empty"))
        } else {
            v.truncate(1);
            let r = QExpr(v);
            proof {
                assert(r@ =~= seq![self@[0]]);
            }
            Ok(r)
        }
    }

    /// Everything but the first element, or the empty-Q-expression
    /// error when there is none.
    pub fn tail(self) -> (r: Result<QExpr, EvalError>)
        ensures
            self@.len() == 0 ==> (r matches Err(e) && e@ == empty_qexpr_err()),
            self@.len() > 0 ==> (r matches Ok(q) && q@ =~= self@.drop_first()),
    {
        let mut v = self.0;
        if v.len() == 0 {
            Err(EvalError::Message("qexpr is empty"))
        } else {
            v.remove(0);
            let r = QExpr(v);
            proof {
                assert(r@ =~= self@.drop_first());
            }
            Ok(r)
        }
    }

    /// Evaluates the quoted expression as code: its elements, as an
    /// S-expression, against the environment — exactly `eval_spec` of
    /// that S-expression.
    pub fn eval(self, env: &mut Env, fuel: u64) -> (r: Result<AST, EvalError>)
        ensures
            frames_preserved(old(env)@, final(env)@),
            crate::semantics::outcome_of(r, final(env)@) == crate::semantics::eval_spec(
                Val::SExpr(self@),
                old(env)@,
                fuel as nat,
            ),
        decreases fuel, vsize(Val::SExpr(self@)), 1nat,
    {
        AST::SExpr(self.0).eval(env, fuel)
    }

    /// The names of the elements, which must all be symbols; on the
    /// first element of another kind, the type-mismatch error for it.
    pub fn symbols(self) -> (r: Result<Vec<String>, EvalError>)
        ensures
            r matches Ok(names) ==> {
                &&& names@.len() == self@.len()
                &&& forall|i: int|
                    0 <= i < self@.len() ==> self@[i] == Val::Sym(#[trigger] names@[i]@)
            },
            r matches Err(e) ==> exists|i: int|
                {
                    &&& 0 <= i < self@.len()
                    &&& !((#[trigger] self@[i]) is Sym)
                    &&& forall|j: int| 0 <= j < i ==> self@[j] is Sym
                    &&& e@ == ErrVal::NotA("symbol"@, self@[i])
                },
    {
        let mut v = self.0;
        let mut names: Vec<String> = Vec::new();
        let n = v.len();
        let mut i: usize = 0;
        while i < n
            invariant
                n == self@.len(),
                i <= n,
                v@.len() == n - i,
                forall|k: int| 0 <= k < v@.len() ==> v@[k] == self.0@[k + i],
                names@.len() == i,
                forall|j: int| 0 <= j < i ==> self@[j] == Val::Sym(#[trigger] names@[j]@),
            decreases n - i,
        {
            let x = v.remove(0);
            proof {
                assert(x@ == self@[i as int]);
            }
            match x.symbol() {
                Ok(s) => names.push(s),
                Err(e) => {
                    proof {
                        let ii = i as int;
                        assert forall|j: int| 0 <= j < ii implies self@[j] is Sym by {
                            assert(self@[j] == Val::Sym(names@[j]@));
                        }
                        assert({
                            &&& 0 <= ii < self@.len()
                            &&& !((self@[ii]) is Sym)
                            &&& forall|j: int| 0 <= j < ii ==> self@[j] is Sym
                            &&& e@ == ErrVal::NotA("symbol"@, self@[ii])
                        });
                    }
                    return Err(e);
                },
            }
            i += 1;
        }
        Ok(names)
    }
}

} // verus!
