use vstd::prelude::*;
use vstd::string::*;

use std::io::Write;

use crate::ast::{elems_model, spec_typ, vsize, Val, AST};
use crate::eval_error::{ErrVal, EvalError};
use crate::function::{FunVal, Function, Lambda};
use crate::qexpr::QExpr;

verus! {

broadcast use vstd::std_specs::vec::group_vec_axioms, vstd::seq::group_seq_axioms;

/// Relies on std::io::Stdout::write_fmt, through the writeln macro:
/// prints one line to standard output. The interpreter's printing is
/// fire-and-forget, so the write's own result is discarded.
#[verifier::external_body]
pub(crate) fn emit_line(s: &String) {
    let _ = writeln!(std::io::stdout(), "{}", s);
}

/// One decimal digit as text.
pub open spec fn digit_text(d: int) -> Seq<char> {
    if d == 0 {
        "0"@
    } else if d == 1 {
        "1"@
    } else if d == 2 {
        "2"@
    } else if d == 3 {
        "3"@
    } else if d == 4 {
        "4"@
    } else if d == 5 {
        "5"@
    } else if d == 6 {
        "6"@
    } else if d == 7 {
        "7"@
    } else if d == 8 {
        "8"@
    } else {
        "9"@
    }
}

/// A magnitude in decimal, most significant digit first.
pub open spec fn mag_text(m: nat) -> Seq<char>
    decreases m,
    via mag_text_decreases
{
    if m < 10 {
        digit_text(m as int)
    } else {
        mag_text(m / 10) + digit_text((m % 10) as int)
    }
}

#[via_fn]
proof fn mag_text_decreases(m: nat) {
    if m >= 10 {
        assert(m / 10 < m) by (nonlinear_arith)
            requires
                m >= 10,
        ;
    }
}

/// A number in decimal, with a leading minus sign when negative.
pub open spec fn int_text_spec(n: int) -> Seq<char> {
    if n < 0 {
        "-"@ + mag_text((-n) as nat)
    } else {
        mag_text(n as nat)
    }
}

/// One character of a string constant's text: newline, tab, carriage
/// return and double quote become their two-character escapes.
pub open spec fn escape_char(c: char) -> Seq<char> {
    if c == '\n' {
        "\\n"@
    } else if c == '\t' {
        "\\t"@
    } else if c == '\r' {
        "\\r"@
    } else if c == '"' {
        "\\\""@
    } else {
        seq![c]
    }
}

/// A string constant's text, character by character.
pub open spec fn escape_text(s: Seq<char>) -> Seq<char>
    decreases s.len(),
{
    if s.len() == 0 {
        Seq::empty()
    } else {
        escape_text(s.drop_last()) + escape_char(s.last())
    }
}

/// The first `i` parameter names joined with single spaces.
pub open spec fn join_names(ps: Seq<Seq<char>>, i: int) -> Seq<char>
    decreases i,
{
    if i <= 0 || i > ps.len() {
        Seq::empty()
    } else if i == 1 {
        ps[0]
    } else {
        join_names(ps, i - 1) + " "@ + ps[i - 1]
    }
}

/// The canonical text of a value: numbers in decimal, symbols
/// verbatim, strings quoted with their escapes, S-expressions in
/// parentheses, Q-expressions in braces, closures as a lambda form,
/// builtins as an opaque token.
pub open spec fn text_of(v: Val) -> Seq<char>
    decreases vsize(v), 1int, 0int,
    via text_of_decreases
{
    match v {
        Val::Num(n) => int_text_spec(n),
        Val::Sym(s) => s,
        Val::Lit(s) => "\""@ + escape_text(s) + "\""@,
        Val::SExpr(es) => "("@ + join_upto(es, es.len() as int) + ")"@,
        Val::QExpr(es) => "{"@ + join_upto(es, es.len() as int) + "}"@,
        Val::Fun(FunVal::Builtin(_)) => "<function>"@,
        Val::Fun(FunVal::Lambda(l)) => "(\\ {"@ + join_names(l.params, l.params.len() as int)
            + "} "@ + text_of(Val::QExpr(l.body)) + ")"@,
    }
}

/// The first `i` elements' texts joined with single spaces.
pub open spec fn join_upto(es: Seq<Val>, i: int) -> Seq<char>
    decreases vsize(Val::SExpr(es)), 0int, i,
    via join_upto_decreases
{
    if i <= 0 || i > es.len() {
        Seq::empty()
    } else if i == 1 {
        text_of(es[0])
    } else {
        join_upto(es, i - 1) + " "@ + text_of(es[i - 1])
    }
}

#[via_fn]
proof fn text_of_decreases(v: Val) {
    match v {
        Val::SExpr(es) => {
            assert(vsize(Val::SExpr(es)) == vsize(v));
        },
        Val::QExpr(es) => {
            assert(vsize(Val::SExpr(es)) == vsize(v));
        },
        Val::Fun(f) => {
            match f {
                FunVal::Lambda(l) => {
                    assert(vsize(Val::QExpr(l.body)) == 1 + crate::ast::seq_size(l.body));
                    assert(vsize(v) == 1 + crate::ast::fun_size(f));
                },
                FunVal::Builtin(_) => {},
            }
        },
        _ => {},
    }
}

#[via_fn]
proof fn join_upto_decreases(es: Seq<Val>, i: int) {
    if 0 < i <= es.len() {
        crate::ast::lemma_seq_size_elem(es, i - 1, es.len() as int);
        if i == 1 {
            crate::ast::lemma_seq_size_elem(es, 0, es.len() as int);
        }
        assert(vsize(Val::SExpr(es)) == 1 + crate::ast::seq_size(es));
    }
}

/// The message shown for an evaluation failure.
pub open spec fn err_text(e: ErrVal) -> Seq<char> {
    match e {
        ErrVal::NotA(t, v) => "expected "@ + t + ", got "@ + spec_typ(v),
        ErrVal::UnknownVar(s) => "unknown variable: "@ + s,
        ErrVal::ArgsMismatch(expected, given) => "args mismatch: "@ + int_text_spec(expected)
            + " expected, "@ + int_text_spec(given) + " given"@,
        ErrVal::Message(s) => s,
        ErrVal::UserDefined(s) => "exception: "@ + s,
        ErrVal::ReadError(s) => "error reading file: "@ + s,
        ErrVal::Exit => "exiting."@,
    }
}

/// One decimal digit as text.
fn digit_str(d: u128) -> (r: &'static str)
    requires
        d < 10,
    ensures
        r@ == digit_text(d as int),
{
    if d == 0 {
        "0"
    } else if d == 1 {
        "1"
    } else if d == 2 {
        "2"
    } else if d == 3 {
        "3"
    } else if d == 4 {
        "4"
    } else if d == 5 {
        "5"
    } else if d == 6 {
        "6"
    } else if d == 7 {
        "7"
    } else if d == 8 {
        "8"
    } else {
        "9"
    }
}

/// The printed text of a stack of digit strings, last-pushed first.
spec fn printed(ds: Seq<&'static str>) -> Seq<char>
    decreases ds.len(),
{
    if ds.len() == 0 {
        Seq::empty()
    } else {
        ds.last()@ + printed(ds.drop_last())
    }
}

/// Peeling the front of the stack takes the last piece of the text.
proof fn lemma_printed_front(s: Seq<&'static str>)
    requires
        s.len() >= 1,
    ensures
        printed(s) == printed(s.drop_first()) + s[0]@,
    decreases s.len(),
{
    if s.len() == 1 {
        assert(s.drop_first() =~= Seq::<&'static str>::empty());
        assert(s.drop_last() =~= Seq::<&'static str>::empty());
        assert(printed(s) =~= printed(s.drop_first()) + s[0]@);
    } else {
        lemma_printed_front(s.drop_last());
        assert(s.drop_last().drop_first() =~= s.drop_first().drop_last());
        assert(s.drop_last()[0] == s[0]);
        assert(s.drop_first().last() == s.last());
        assert(printed(s) =~= printed(s.drop_first()) + s[0]@);
    }
}

/// A number in decimal, with a leading minus sign when negative.
pub fn int_text(n: i128) -> (r: String)
    ensures
        r@ == int_text_spec(n as int),
{
    let neg = n < 0;
    let mag: u128 = if n >= 0 {
        n as u128
    } else {
        ((-(n + 1)) as u128) + 1
    };
    proof {
        if n < 0 {
            assert(mag as int == -(n as int));
        } else {
            assert(mag as int == n as int);
        }
    }
    let mut digits: Vec<&'static str> = Vec::new();
    let mut m = mag;
    proof {
        assert(printed(digits@) =~= Seq::<char>::empty());
        if mag > 0 {
            assert(mag_text(mag as nat) =~= mag_text(m as nat) + printed(digits@));
        }
    }
    while m > 0
        invariant
            m <= mag,
            digits@.len() == 0 ==> m == mag,
            mag == 0 ==> digits@.len() == 0,
            m > 0 ==> mag_text(mag as nat) == mag_text(m as nat) + printed(digits@),
            (m == 0 && mag > 0) ==> mag_text(mag as nat) == printed(digits@),
        decreases m,
    {
        let ghost ds_pre = digits@;
        let ghost m_pre = m as nat;
        digits.push(digit_str(m % 10));
        m = m / 10;
        proof {
            assert(digits@.drop_last() =~= ds_pre);
            assert(printed(digits@) =~= digit_text((m_pre % 10) as int) + printed(ds_pre));
            if m_pre < 10 {
                assert(mag_text(m_pre) == digit_text(m_pre as int));
                assert((m_pre % 10) as int == m_pre as int);
                assert(mag_text(mag as nat) =~= printed(digits@));
            } else {
                assert(mag_text(m_pre) == mag_text(m_pre / 10) + digit_text(
                    (m_pre % 10) as int,
                ));
                assert(mag_text(mag as nat) =~= mag_text(m as nat) + printed(digits@));
            }
        }
    }
    let mut out = String::new();
    if neg {
        out.append("-");
    }
    if digits.len() == 0 {
        out.append("0");
        proof {
            assert(mag == 0 && n >= 0);
            assert(mag_text(0) == digit_text(0));
            assert(out@ =~= int_text_spec(n as int));
        }
        return out;
    }
    let ghost sign: Seq<char> = if neg {
        "-"@
    } else {
        Seq::empty()
    };
    proof {
        assert(digits@.skip(digits@.len() as int) =~= Seq::<&'static str>::empty());
        assert(out@ =~= sign + printed(digits@.skip(digits@.len() as int)));
    }
    let mut i = digits.len();
    while i > 0
        invariant
            i <= digits@.len(),
            mag_text(mag as nat) == printed(digits@),
            out@ == sign + printed(digits@.skip(i as int)),
        decreases i,
    {
        i -= 1;
        out.append(digits[i]);
        proof {
            lemma_printed_front(digits@.skip(i as int));
            assert(digits@.skip(i as int).drop_first() =~= digits@.skip(i as int + 1));
            assert(digits@.skip(i as int)[0] == digits@[i as int]);
            assert(out@ =~= sign + printed(digits@.skip(i as int)));
        }
    }
    proof {
        assert(digits@.skip(0) =~= digits@);
        assert(out@ =~= int_text_spec(n as int));
    }
    out
}

/// The string constant's text with newline, tab, carriage return and
/// double quote written as their two-character escapes.
pub(crate) fn escaped(string: &String) -> (r: String)
    ensures
        r@ == escape_text(string@),
{
    let st = string.as_str();
    let n = st.unicode_len();
    let mut out = String::new();
    proof {
        assert(st@.take(0) =~= Seq::<char>::empty());
        assert(escape_text(st@.take(0)) =~= Seq::<char>::empty());
    }
    let mut i: usize = 0;
    while i < n
        invariant
            n == st@.len(),
            st@ == string@,
            i <= n,
            out@ == escape_text(st@.take(i as int)),
        decreases n - i,
    {
        let c = st.get_char(i);
        if c == '\n' {
            out.append("\\n");
        } else if c == '\t' {
            out.append("\\t");
        } else if c == '\r' {
            out.append("\\r");
        } else if c == '"' {
            out.append("\\\"");
        } else {
            out.append(st.substring_char(i, i + 1));
        }
        proof {
            assert(st@.take(i as int + 1).drop_last() =~= st@.take(i as int));
            assert(st@.take(i as int + 1).last() == st@[i as int]);
            assert(st@.subrange(i as int, i as int + 1) =~= seq![st@[i as int]]);
            assert(out@ =~= escape_text(st@.take(i as int + 1)));
        }
        i += 1;
    }
    proof {
        assert(st@.take(n as int) =~= st@);
    }
    out
}

impl AST {
    /// The canonical text of the value: exactly `text_of` its model.
    pub fn to_text(&self) -> (r: String)
        ensures
            r@ == text_of(self@),
        decreases vsize(self@), 0nat,
    {
        match self {
            AST::Number(num) => int_text(*num),
            AST::Symbol(sym) => sym.clone(),
            AST::Literal(string) => {
                let mut out = String::new();
                out.append("\"");
                let body = escaped(string);
                out.append(body.as_str());
                out.append("\"");
                out
            },
            AST::SExpr(asts) => pprint("(", asts, ")"),
            AST::QExpr(q) => q.to_text(),
            AST::Function(f) => f.to_text(),
        }
    }
}

/// The text of the element at one index.
fn text_at(asts: &Vec<AST>, i: usize) -> (r: String)
    requires
        i < asts@.len(),
    ensures
        r@ == text_of(asts@[i as int]@),
    decreases vsize(asts@[i as int]@), 1nat,
{
    asts[i].to_text()
}

/// The elements' texts joined with single spaces, between a prefix
/// and a suffix.
pub fn pprint(before: &str, asts: &Vec<AST>, after: &str) -> (r: String)
    ensures
        r@ == before@ + join_upto(elems_model(*asts), asts@.len() as int) + after@,
    decreases crate::ast::seq_size(elems_model(*asts)), 2nat,
{
    let ghost m = elems_model(*asts);
    let mut out = String::new();
    out.append(before);
    let n = asts.len();
    let mut i: usize = 0;
    proof {
        assert(join_upto(m, 0) =~= Seq::<char>::empty());
        assert(out@ =~= before@ + join_upto(m, 0));
    }
    while i < n
        invariant
            n == asts@.len(),
            n == m.len(),
            m == elems_model(*asts),
            i <= n,
            out@ == before@ + join_upto(m, i as int),
        decreases n - i,
    {
        proof {
            crate::ast::lemma_seq_size_elem(m, i as int, n as int);
        }
        if i > 0 {
            out.append(" ");
        }
        let piece = text_at(asts, i);
        out.append(piece.as_str());
        proof {
            assert(out@ =~= before@ + join_upto(m, i as int + 1));
        }
        i += 1;
    }
    out.append(after);
    out
}

impl QExpr {
    /// The braces form of the quoted expression.
    pub fn to_text(&self) -> (r: String)
        ensures
            r@ == text_of(Val::QExpr(self@)),
        decreases crate::ast::seq_size(self@), 3nat,
    {
        pprint("{", &self.0, "}")
    }
}

impl Function {
    /// A closure prints as its lambda form; a builtin as an opaque
    /// placeholder token.
    pub fn to_text(&self) -> (r: String)
        ensures
            r@ == text_of(Val::Fun(self@)),
        decreases crate::ast::fun_size(self@), 5nat,
    {
        match self {
            Function::Builtin(_) => String::from_str("<function>"),
            Function::Lambda(f) => f.to_text(),
        }
    }
}

impl Lambda {
    /// The lambda form: the remaining parameters in braces, then the
    /// body.
    pub fn to_text(&self) -> (r: String)
        ensures
            r@ == text_of(Val::Fun(FunVal::Lambda(self@))),
        decreases crate::ast::ctx_size(self@.context) + crate::ast::seq_size(self@.body), 4nat,
    {
        let ghost ps = self@.params;
        let mut out = String::new();
        out.append("(\\ {");
        let n = self.params.len();
        let mut i: usize = 0;
        proof {
            assert(join_names(ps, 0) =~= Seq::<char>::empty());
            assert(out@ =~= "(\\ {"@ + join_names(ps, 0));
        }
        while i < n
            invariant
                n == self.params@.len(),
                n == ps.len(),
                ps == self@.params,
                i <= n,
                out@ == "(\\ {"@ + join_names(ps, i as int),
            decreases n - i,
        {
            if i > 0 {
                out.append(" ");
            }
            out.append(self.params[i].as_str());
            proof {
                assert(out@ =~= "(\\ {"@ + join_names(ps, i as int + 1));
            }
            i += 1;
        }
        out.append("} ");
        let body = self.body.to_text();
        out.append(body.as_str());
        out.append(")");
        proof {
            assert(out@ =~= text_of(Val::Fun(FunVal::Lambda(self@))));
        }
        out
    }
}

impl EvalError {
    /// The message shown to the user: exactly `err_text` its model.
    pub fn text(&self) -> (r: String)
        ensures
            r@ == err_text(self@),
    {
        let mut out = String::new();
        match self {
            EvalError::NotA(typ, ast) => {
                out.append("expected ");
                out.append(*typ);
                out.append(", got ");
                out.append(ast.typ());
            },
            EvalError::UnknownVar(s) => {
                out.append("unknown variable: ");
                out.append(s.as_str());
            },
            EvalError::ArgsMismatch(u) => {
                out.append("args mismatch: ");
                let expected = int_text(u.expected as i128);
                out.append(expected.as_str());
                out.append(" expected, ");
                let given = int_text(u.given as i128);
                out.append(given.as_str());
                out.append(" given");
            },
            EvalError::Message(s) => {
                out.append(*s);
            },
            EvalError::UserDefined(s) => {
                out.append("exception: ");
                out.append(s.as_str());
            },
            EvalError::ReadError(s) => {
                out.append("error reading file: ");
                out.append(s.as_str());
            },
            EvalError::Exit => {
                out.append("exiting.");
            },
        }
        proof {
            assert(out@ =~= err_text(self@));
        }
        out
    }
}

} // verus!
