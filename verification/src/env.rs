use vstd::prelude::*;

use crate::ast::{bindings_model, clone_ast, Val, AST};
use crate::eval_error::{ErrVal, EvalError};
use crate::function::{Builtin, FunVal, Function};

verus! {

broadcast use vstd::std_specs::vec::group_vec_axioms, vstd::seq::group_seq_axioms;

/// A table of bindings from symbol names to values. Later entries
/// shadow earlier ones, so extending the table is appending to it.
pub type Bindings = Vec<(String, AST)>;

/// The model of one binding table.
pub type FrameVal = Seq<(Seq<char>, Val)>;

/// Looks a name up in one binding table: the latest entry wins.
pub open spec fn frame_lookup(f: FrameVal, name: Seq<char>) -> Option<Val>
    decreases f.len(),
{
    if f.len() == 0 {
        None
    } else if f.last().0 == name {
        Some(f.last().1)
    } else {
        frame_lookup(f.drop_last(), name)
    }
}

/// Looks a name up in a stack of scopes, innermost (last) first.
pub open spec fn scopes_lookup(scopes: Seq<FrameVal>, name: Seq<char>) -> Option<Val>
    decreases scopes.len(),
{
    if scopes.len() == 0 {
        None
    } else {
        match frame_lookup(scopes.last(), name) {
            Some(v) => Some(v),
            None => scopes_lookup(scopes.drop_last(), name),
        }
    }
}

/// The model of a whole environment: the root table and the stack of
/// nested scopes, outermost first.
pub struct EnvVal {
    pub global: FrameVal,
    pub scopes: Seq<FrameVal>,
}

/// Looks a name up in a whole environment: scopes from the innermost
/// outward, then the root.
pub open spec fn env_lookup(e: EnvVal, name: Seq<char>) -> Option<Val> {
    match scopes_lookup(e.scopes, name) {
        Some(v) => Some(v),
        None => frame_lookup(e.global, name),
    }
}

/// The root environment: the one table that `def` always writes, owned
/// for a whole session and pre-populated with every builtin.
pub struct Global {
    pub bindings: Bindings,
}

/// One nested lexical scope: the binding table of a single call frame.
pub struct Scope {
    pub bindings: Bindings,
}

impl View for Global {
    type V = FrameVal;

    open spec fn view(&self) -> FrameVal {
        bindings_model(self.bindings)
    }
}

impl View for Scope {
    type V = FrameVal;

    open spec fn view(&self) -> FrameVal {
        bindings_model(self.bindings)
    }
}

/// An environment: the root table under a stack of nested scopes. The
/// innermost scope is the last element; a scope's lifetime is bounded
/// by the call that pushed it, so the stack discipline of the chain is
/// structural.
pub struct Env {
    pub global: Global,
    pub scopes: Vec<Scope>,
}

impl View for Env {
    type V = EnvVal;

    open spec fn view(&self) -> EnvVal {
        EnvVal {
            global: self.global@,
            scopes: Seq::new(self.scopes@.len(), |i: int| self.scopes@[i]@),
        }
    }
}

/// Finds the latest entry for a name in one table and hands back a
/// copy of its value.
fn frame_find(bs: &Bindings, key: &String) -> (r: Option<AST>)
    ensures
        match frame_lookup(bindings_model(*bs), key@) {
            Some(v) => r matches Some(a) && a@ == v,
            None => r is None,
        },
{
    let ghost f = bindings_model(*bs);
    let n = bs.len();
    let mut i: usize = n;
    proof {
        assert(f.take(n as int) =~= f);
    }
    while i > 0
        invariant
            n == f.len(),
            i <= n,
            bindings_model(*bs) == f,
            forall|j: int| i <= j < n ==> f[j].0 != key@,
            frame_lookup(f, key@) == frame_lookup(f.take(i as int), key@),
        decreases i,
    {
        i -= 1;
        let pair = &bs[i];
        if pair.0.eq(key) {
            proof {
                assert(f.take(i as int + 1).last() == f[i as int]);
                assert(f.take(i as int + 1).drop_last() =~= f.take(i as int));
            }
            return Some(clone_ast(&pair.1));
        }
        proof {
            assert(f.take(i as int + 1).last() == f[i as int]);
            assert(f.take(i as int + 1).drop_last() =~= f.take(i as int));
        }
    }
    proof {
        assert(f.take(0) =~= Seq::<(Seq<char>, Val)>::empty());
    }
    None
}

impl Global {
    /// The value bound to a name in the root table, or the
    /// unknown-variable error.
    pub fn get(&self, key: String) -> (r: Result<AST, EvalError>)
        ensures
            match frame_lookup(self@, key@) {
                Some(v) => r matches Ok(a) && a@ == v,
                None => r matches Err(e) && e@ == ErrVal::UnknownVar(key@),
            },
    {
        match frame_find(&self.bindings, &key) {
            Some(a) => Ok(a),
            None => Err(EvalError::UnknownVar(key)),
        }
    }

    /// Adds a batch of bindings, in order; each shadows any earlier
    /// binding of the same name.
    pub fn define(&mut self, bindings: Bindings)
        ensures
            final(self)@ == old(self)@ + bindings_model(bindings),
    {
        append_bindings(&mut self.bindings, bindings);
    }

    /// At the root, assigning and defining are one and the same.
    pub fn assign(&mut self, bindings: Bindings)
        ensures
            final(self)@ == old(self)@ + bindings_model(bindings),
    {
        self.define(bindings);
    }
}

/// Appends a batch of bindings to a table.
fn append_bindings(bs: &mut Bindings, extra: Bindings)
    ensures
        bindings_model(*final(bs)) == bindings_model(*old(bs)) + bindings_model(extra),
{
    let ghost pre = bindings_model(*old(bs));
    let ghost add = bindings_model(extra);
    let mut extra = extra;
    bs.append(&mut extra);
    proof {
        assert(bindings_model(*bs) =~= pre + add);
    }
}

/// What any evaluation step leaves alone: the depth of the scope
/// chain, and every scope but the innermost one. Evaluated code can
/// write the root (`def`) and the innermost scope (`=`); the scopes
/// between them belong to enclosing calls and are untouchable.
pub open spec fn frames_preserved(pre: EnvVal, post: EnvVal) -> bool {
    &&& post.scopes.len() == pre.scopes.len()
    &&& forall|i: int| 0 <= i < pre.scopes.len() - 1 ==> post.scopes[i] == #[trigger] pre.scopes[i]
}

/// Evaluates a file's forms one after the other against one
/// environment, as the `load` builtin's collaborator contract asks:
/// the host parses each line and hands over the form, or the text of
/// the line's parse error; a failed form's error is printed, not
/// propagated, so the lines after it still run. Yields the unit value.
pub fn load(env: &mut Env, forms: Vec<Result<AST, String>>, fuel: u64) -> (r: Result<
    AST,
    EvalError,
>)
    ensures
        frames_preserved(old(env)@, final(env)@),
        final(env)@ == crate::semantics::load_spec(
            crate::semantics::forms_model(forms),
            old(env)@,
            fuel as nat,
        ),
        r matches Ok(a) && a@ == crate::ast::unit_val(),
{
    let ghost total = crate::semantics::forms_model(forms);
    let mut rest = forms;
    proof {
        assert(crate::semantics::forms_model(rest) =~= total);
    }
    while rest.len() > 0
        invariant
            frames_preserved(old(env)@, env@),
            crate::semantics::load_spec(total, old(env)@, fuel as nat)
                == crate::semantics::load_spec(
                crate::semantics::forms_model(rest),
                env@,
                fuel as nat,
            ),
        decreases rest@.len(),
    {
        let ghost fm_pre = crate::semantics::forms_model(rest);
        let ghost env_pre = env@;
        let item = rest.remove(0);
        proof {
            assert(crate::semantics::forms_model(rest) =~= fm_pre.drop_first());
        }
        match item {
            Ok(form) => {
                proof {
                    assert(fm_pre[0] == Ok::<Val, Seq<char>>(form@));
                }
                match form.eval(env, fuel) {
                    Ok(_) => {},
                    Err(err) => {
                        let text = err.text();
                        crate::render::emit_line(&text);
                    },
                }
                proof {
                    assert(env@ == crate::semantics::eval_spec(
                        form@,
                        env_pre,
                        fuel as nat,
                    ).env);
                }
            },
            Err(parse_error) => {
                proof {
                    assert(fm_pre[0] == Err::<Val, Seq<char>>(parse_error@));
                }
                crate::render::emit_line(&parse_error);
            },
        }
    }
    proof {
        assert(crate::semantics::forms_model(rest) =~= Seq::<Result<Val, Seq<char>>>::empty());
    }
    Ok(AST::default())
}

/// One entry of the builtin table.
pub open spec fn builtin_entry(name: Seq<char>, b: Builtin) -> (Seq<char>, Val) {
    (name, Val::Fun(FunVal::Builtin(b)))
}

/// The root table that every session starts from: each primitive bound
/// to its symbol.
pub open spec fn builtins_frame() -> FrameVal {
    seq![
        builtin_entry("+"@, Builtin::Add),
        builtin_entry("-"@, Builtin::Sub),
        builtin_entry("*"@, Builtin::Mul),
        builtin_entry("/"@, Builtin::Div),
        builtin_entry("\\"@, Builtin::Lambda),
        builtin_entry("="@, Builtin::Assign),
        builtin_entry("<"@, Builtin::Less),
        builtin_entry("=="@, Builtin::Eq),
        builtin_entry("list"@, Builtin::List),
        builtin_entry("head"@, Builtin::Head),
        builtin_entry("tail"@, Builtin::Tail),
        builtin_entry("join"@, Builtin::Join),
        builtin_entry("eval"@, Builtin::Eval),
        builtin_entry("def"@, Builtin::Def),
        builtin_entry("if"@, Builtin::If),
        builtin_entry("load"@, Builtin::Load),
        builtin_entry("print"@, Builtin::Print),
        builtin_entry("error"@, Builtin::Error),
        builtin_entry("exit"@, Builtin::Exit),
    ]
}

impl Global {
    /// Binds one more builtin.
    fn bind_builtin(&mut self, name: &'static str, b: Builtin)
        ensures
            final(self)@ =~= old(self)@.push((name@, Val::Fun(FunVal::Builtin(b)))),
    {
        let ghost pre = old(self)@;
        self.bindings.push((String::from_str(name), AST::Function(Function::Builtin(b))));
        proof {
            assert(self@ =~= pre.push((name@, Val::Fun(FunVal::Builtin(b)))));
        }
    }
}

impl Default for Global {
    /// The root table of a fresh session, pre-populated with all the
    /// builtins and never replaced afterwards, only extended.
    fn default() -> (r: Self)
        ensures
            r@ == builtins_frame(),
    {
        let empty: Bindings = Vec::new();
        let mut g = Global { bindings: empty };
        proof {
            assert(g@ =~= Seq::<(Seq<char>, Val)>::empty());
        }
        g.bind_builtin("+", Builtin::Add);
        g.bind_builtin("-", Builtin::Sub);
        g.bind_builtin("*", Builtin::Mul);
        g.bind_builtin("/", Builtin::Div);
        g.bind_builtin("\\", Builtin::Lambda);
        g.bind_builtin("=", Builtin::Assign);
        g.bind_builtin("<", Builtin::Less);
        g.bind_builtin("==", Builtin::Eq);
        g.bind_builtin("list", Builtin::List);
        g.bind_builtin("head", Builtin::Head);
        g.bind_builtin("tail", Builtin::Tail);
        g.bind_builtin("join", Builtin::Join);
        g.bind_builtin("eval", Builtin::Eval);
        g.bind_builtin("def", Builtin::Def);
        g.bind_builtin("if", Builtin::If);
        g.bind_builtin("load", Builtin::Load);
        g.bind_builtin("print", Builtin::Print);
        g.bind_builtin("error", Builtin::Error);
        g.bind_builtin("exit", Builtin::Exit);
        proof {
            assert(g@ =~= builtins_frame());
        }
        g
    }
}

/// Looking a name up in an extended table finds the extension's latest
/// binding of it, and falls back to the base table otherwise.
pub proof fn lemma_frame_lookup_append(base: FrameVal, extra: FrameVal, name: Seq<char>)
    ensures
        frame_lookup(base + extra, name) == match frame_lookup(extra, name) {
            Some(v) => Some(v),
            None => frame_lookup(base, name),
        },
    decreases extra.len(),
{
    if extra.len() == 0 {
        assert(base + extra =~= base);
    } else {
        assert((base + extra).drop_last() =~= base + extra.drop_last());
        lemma_frame_lookup_append(base, extra.drop_last(), name);
    }
}

/// Where no nested scope binds a name, the chain's answer is the root
/// table's answer.
pub proof fn lemma_scopes_transparent(scopes: Seq<FrameVal>, name: Seq<char>)
    requires
        forall|i: int| 0 <= i < scopes.len() ==> frame_lookup(#[trigger] scopes[i], name) is None,
    ensures
        scopes_lookup(scopes, name) is None,
    decreases scopes.len(),
{
    if scopes.len() > 0 {
        lemma_scopes_transparent(scopes.drop_last(), name);
    }
}

/// Global write-through: after `define` adds a batch to the root, a
/// name the batch binds reads back as the batch's latest value for it,
/// from the root environment itself and from any nest of scopes that
/// does not shadow the name — so also after every scope of the nest
/// has exited.
pub proof fn lemma_define_then_get(e: EnvVal, extra: FrameVal, name: Seq<char>)
    requires
        frame_lookup(extra, name) is Some,
        forall|i: int| 0 <= i < e.scopes.len() ==> frame_lookup(#[trigger] e.scopes[i], name)
            is None,
    ensures
        env_lookup(EnvVal { global: e.global + extra, scopes: e.scopes }, name) == frame_lookup(
            extra,
            name,
        ),
        env_lookup(
            EnvVal { global: e.global + extra, scopes: Seq::empty() },
            name,
        ) == frame_lookup(extra, name),
{
    lemma_scopes_transparent(e.scopes, name);
    lemma_frame_lookup_append(e.global, extra, name);
}

impl Scope {
    /// A scope owning the given bindings.
    pub fn new(bindings: Bindings) -> (r: Self)
        ensures
            r@ == bindings_model(bindings),
    {
        Self { bindings }
    }

    /// Adds a batch of bindings to this scope alone.
    pub fn assign(&mut self, bindings: Bindings)
        ensures
            final(self)@ == old(self)@ + bindings_model(bindings),
    {
        append_bindings(&mut self.bindings, bindings);
    }
}

impl Env {
    /// An environment of the root table alone, with no nested scope.
    pub fn from_global(global: Global) -> (r: Self)
        ensures
            r@.global == global@,
            r@.scopes =~= Seq::<FrameVal>::empty(),
    {
        Self { global, scopes: Vec::new() }
    }

    /// The value bound to a name, searching the scopes from the
    /// innermost outward and the root last; the unknown-variable error
    /// when the whole chain lacks the name.
    pub fn get(&self, key: String) -> (r: Result<AST, EvalError>)
        ensures
            match env_lookup(self@, key@) {
                Some(v) => r matches Ok(a) && a@ == v,
                None => r matches Err(e) && e@ == ErrVal::UnknownVar(key@),
            },
    {
        let n = self.scopes.len();
        let mut i: usize = n;
        proof {
            assert(self@.scopes.take(n as int) =~= self@.scopes);
        }
        while i > 0
            invariant
                n == self.scopes@.len(),
                i <= n,
                scopes_lookup(self@.scopes, key@) == scopes_lookup(
                    self@.scopes.take(i as int),
                    key@,
                ),
            decreases i,
        {
            i -= 1;
            let found = frame_find(&self.scopes[i].bindings, &key);
            proof {
                assert(self@.scopes.take(i as int + 1).last() == self@.scopes[i as int]);
                assert(self@.scopes.take(i as int + 1).drop_last() =~= self@.scopes.take(
                    i as int,
                ));
            }
            match found {
                Some(a) => {
                    return Ok(a);
                },
                None => {},
            }
        }
        proof {
            assert(self@.scopes.take(0) =~= Seq::<FrameVal>::empty());
        }
        self.global.get(key)
    }

    /// Defines bindings so that every scope sees them: writes through
    /// to the root table, whatever the current nesting is.
    pub fn define(&mut self, bindings: Bindings)
        ensures
            final(self)@.global == old(self)@.global + bindings_model(bindings),
            final(self)@.scopes == old(self)@.scopes,
    {
        self.global.define(bindings);
        proof {
            assert(self@.scopes =~= old(self)@.scopes);
        }
    }

    /// Assigns bindings in the innermost scope alone; at the root the
    /// two write operations coincide.
    pub fn assign(&mut self, bindings: Bindings)
        ensures
            old(self)@.scopes.len() == 0 ==> final(self)@.global == old(self)@.global
                + bindings_model(bindings) && final(self)@.scopes == old(self)@.scopes,
            old(self)@.scopes.len() > 0 ==> {
                &&& final(self)@.global == old(self)@.global
                &&& final(self)@.scopes == old(self)@.scopes.update(
                    old(self)@.scopes.len() - 1,
                    old(self)@.scopes.last() + bindings_model(bindings),
                )
            },
    {
        let n = self.scopes.len();
        if n == 0 {
            self.global.define(bindings);
            proof {
                assert(self@.scopes =~= old(self)@.scopes);
            }
        } else {
            let ghost pre = old(self)@.scopes;
            let top = self.scopes.pop();
            match top {
                Some(mut top) => {
                    top.assign(bindings);
                    self.scopes.push(top);
                    proof {
                        assert(self@.scopes =~= pre.update(
                            pre.len() - 1,
                            pre.last() + bindings_model(bindings),
                        ));
                    }
                },
                None => {
                    proof {
                        assert(false);
                    }
                },
            }
        }
    }

    /// A fresh session environment: the root table with every builtin
    /// and no nested scope.
    pub fn new() -> (r: Self)
        ensures
            r@.global == builtins_frame(),
            r@.scopes =~= Seq::<FrameVal>::empty(),
    {
        Self::from_global(Global::default())
    }

    /// Pushes a nested scope: the new innermost frame of the chain.
    pub fn push_scope(&mut self, scope: Scope)
        ensures
            final(self)@.global == old(self)@.global,
            final(self)@.scopes == old(self)@.scopes.push(scope@),
    {
        self.scopes.push(scope);
        proof {
            assert(self@.scopes =~= old(self)@.scopes.push(scope@));
        }
    }

    /// Drops the innermost scope: a call frame has returned.
    pub fn pop_scope(&mut self)
        requires
            old(self)@.scopes.len() > 0,
        ensures
            final(self)@.global == old(self)@.global,
            final(self)@.scopes == old(self)@.scopes.drop_last(),
    {
        let popped = self.scopes.pop();
        proof {
            assert(self@.scopes =~= old(self)@.scopes.drop_last());
        }
    }
}

} // verus!
