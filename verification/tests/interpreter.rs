use lispy::ast::values_equal;
use lispy::{Builtin, Env, EvalError, Function, Lambda, QExpr, AST};

const FUEL: u64 = 100;

fn num(n: i128) -> AST {
    AST::Number(n)
}

fn sym(s: &str) -> AST {
    AST::Symbol(String::from(s))
}

fn lit(s: &str) -> AST {
    AST::Literal(String::from(s))
}

fn sexpr(items: Vec<AST>) -> AST {
    AST::SExpr(items)
}

fn qexpr(items: Vec<AST>) -> AST {
    AST::QExpr(QExpr(items))
}

fn eval_in(env: &mut Env, v: AST) -> Result<AST, EvalError> {
    v.eval(env, FUEL)
}

fn eval_one(v: AST) -> Result<AST, EvalError> {
    let mut env = Env::new();
    eval_in(&mut env, v)
}

fn expect_num(r: Result<AST, EvalError>) -> i128 {
    match r {
        Ok(AST::Number(n)) => n,
        Ok(other) => panic!("expected a number, got {}", other.to_text()),
        Err(e) => panic!("expected a number, got error: {}", e.text().as_str()),
    }
}

#[test]
fn numbers_evaluate_to_themselves() {
    let r = eval_one(num(42)).unwrap();
    assert!(values_equal(&r, &num(42)));
}

#[test]
fn literals_evaluate_to_themselves() {
    let r = eval_one(lit("hi")).unwrap();
    assert!(values_equal(&r, &lit("hi")));
}

#[test]
fn qexprs_evaluate_to_themselves() {
    let v = qexpr(vec![num(1), sym("x"), qexpr(vec![])]);
    let w = qexpr(vec![num(1), sym("x"), qexpr(vec![])]);
    let r = eval_one(v).unwrap();
    assert!(values_equal(&r, &w));
}

#[test]
fn functions_evaluate_to_themselves() {
    let f = AST::Function(Function::Builtin(Builtin::Add));
    let g = AST::Function(Function::Builtin(Builtin::Add));
    let r = eval_one(f).unwrap();
    assert!(values_equal(&r, &g));
}

#[test]
fn empty_sexpr_is_the_unit() {
    let r = eval_one(sexpr(vec![])).unwrap();
    assert!(values_equal(&r, &sexpr(vec![])));
    assert!(values_equal(&r, &AST::default()));
}

#[test]
fn single_element_sexpr_is_transparent() {
    let r = eval_one(sexpr(vec![sexpr(vec![num(9)])]));
    assert_eq!(expect_num(r), 9);
}

#[test]
fn addition_sums_all_arguments() {
    let r = eval_one(sexpr(vec![sym("+"), num(1), num(2), num(3)]));
    assert_eq!(expect_num(r), 6);
}

#[test]
fn subtraction_and_negation() {
    let two = eval_one(sexpr(vec![sym("-"), num(5), num(3)]));
    assert_eq!(expect_num(two), 2);
    let neg = eval_one(sexpr(vec![sym("-"), num(5)]));
    assert_eq!(expect_num(neg), -5);
}

#[test]
fn multiplication_takes_a_product() {
    let r = eval_one(sexpr(vec![sym("*"), num(2), num(3), num(7)]));
    assert_eq!(expect_num(r), 42);
}

#[test]
fn division_truncates_toward_zero() {
    assert_eq!(expect_num(eval_one(sexpr(vec![sym("/"), num(10), num(2)]))), 5);
    assert_eq!(expect_num(eval_one(sexpr(vec![sym("/"), num(-7), num(2)]))), -3);
    assert_eq!(expect_num(eval_one(sexpr(vec![sym("/"), num(7), num(-2)]))), -3);
}

#[test]
fn division_by_zero_is_an_error_not_a_panic() {
    let r = eval_one(sexpr(vec![sym("/"), num(5), num(0)]));
    match r {
        Err(EvalError::Message(m)) => assert_eq!(m, "div by zero"),
        other => panic!("expected the div-by-zero message, got {:?}", describe(other)),
    }
}

#[test]
fn dividing_min_by_minus_one_is_the_same_error() {
    let r = eval_one(sexpr(vec![sym("/"), num(i128::MIN), num(-1)]));
    assert!(matches!(r, Err(EvalError::Message("div by zero"))));
}

#[test]
fn comparison_yields_zero_or_one() {
    assert_eq!(expect_num(eval_one(sexpr(vec![sym("<"), num(1), num(2)]))), 1);
    assert_eq!(expect_num(eval_one(sexpr(vec![sym("<"), num(2), num(1)]))), 0);
}

#[test]
fn equality_is_exact_and_kind_aware() {
    assert_eq!(expect_num(eval_one(sexpr(vec![sym("=="), num(3), num(3)]))), 1);
    assert_eq!(expect_num(eval_one(sexpr(vec![sym("=="), num(3), num(4)]))), 0);
    assert_eq!(
        expect_num(eval_one(sexpr(vec![sym("=="), num(1), lit("1")]))),
        0,
        "values of different kinds are never equal"
    );
    assert_eq!(
        expect_num(eval_one(sexpr(vec![
            sym("=="),
            qexpr(vec![num(1), num(2)]),
            qexpr(vec![num(1), num(2)]),
        ]))),
        1
    );
}

#[test]
fn list_packs_arguments() {
    let r = eval_one(sexpr(vec![sym("list"), num(1), num(2)])).unwrap();
    assert!(values_equal(&r, &qexpr(vec![num(1), num(2)])));
}

#[test]
fn head_takes_a_one_element_list() {
    let r = eval_one(sexpr(vec![sym("head"), qexpr(vec![num(1), num(2), num(3)])])).unwrap();
    assert!(values_equal(&r, &qexpr(vec![num(1)])));
}

#[test]
fn tail_drops_the_first_element() {
    let r = eval_one(sexpr(vec![sym("tail"), qexpr(vec![num(1), num(2), num(3)])])).unwrap();
    assert!(values_equal(&r, &qexpr(vec![num(2), num(3)])));
}

#[test]
fn head_and_tail_of_the_empty_list_fail() {
    let h = eval_one(sexpr(vec![sym("head"), qexpr(vec![])]));
    assert!(matches!(h, Err(EvalError::Message("qexpr is empty"))));
    let t = eval_one(sexpr(vec![sym("tail"), qexpr(vec![])]));
    assert!(matches!(t, Err(EvalError::Message("qexpr is empty"))));
}

#[test]
fn join_concatenates_lists() {
    let r = eval_one(sexpr(vec![
        sym("join"),
        qexpr(vec![num(1)]),
        qexpr(vec![num(2), num(3)]),
    ]))
    .unwrap();
    assert!(values_equal(&r, &qexpr(vec![num(1), num(2), num(3)])));
}

#[test]
fn eval_builtin_runs_quoted_code() {
    let r = eval_one(sexpr(vec![sym("eval"), qexpr(vec![sym("+"), num(1), num(2)])]));
    assert_eq!(expect_num(r), 3);
}

#[test]
fn def_binds_globally() {
    let mut env = Env::new();
    let d = eval_in(
        &mut env,
        sexpr(vec![sym("def"), qexpr(vec![sym("x"), sym("y")]), num(1), num(2)]),
    );
    assert!(d.is_ok());
    assert_eq!(expect_num(eval_in(&mut env, sym("x"))), 1);
    assert_eq!(expect_num(eval_in(&mut env, sym("y"))), 2);
}

#[test]
fn def_inside_a_nested_scope_survives_the_scope() {
    let mut env = Env::new();
    // ((\ {a} {def {x} a}) 5): the definition runs inside the call's
    // scope, yet x must be visible after the call has returned.
    let lam = sexpr(vec![
        sym("\\"),
        qexpr(vec![sym("a")]),
        qexpr(vec![sym("def"), qexpr(vec![sym("x")]), sym("a")]),
    ]);
    let call = sexpr(vec![lam, num(5)]);
    eval_in(&mut env, call).unwrap();
    assert_eq!(expect_num(eval_in(&mut env, sym("x"))), 5);
}

#[test]
fn def_with_mismatched_lists_fails() {
    let r = eval_one(sexpr(vec![sym("def"), qexpr(vec![sym("x"), sym("y")]), num(1)]));
    assert!(matches!(
        r,
        Err(EvalError::Message("symbol and value lists have different lengths"))
    ));
}

#[test]
fn assignment_shadows_only_the_local_scope() {
    let mut env = Env::new();
    eval_in(
        &mut env,
        sexpr(vec![sym("def"), qexpr(vec![sym("x")]), num(1)]),
    )
    .unwrap();
    // ((\ {a} {= {x} 9}) 0) assigns in the call's own scope only.
    let lam = sexpr(vec![
        sym("\\"),
        qexpr(vec![sym("a")]),
        qexpr(vec![sym("="), qexpr(vec![sym("x")]), num(9)]),
    ]);
    eval_in(&mut env, sexpr(vec![lam, num(0)])).unwrap();
    assert_eq!(expect_num(eval_in(&mut env, sym("x"))), 1);
}

#[test]
fn lambda_applies_all_arguments_at_once() {
    let lam = sexpr(vec![
        sym("\\"),
        qexpr(vec![sym("x"), sym("y")]),
        qexpr(vec![sym("+"), sym("x"), sym("y")]),
    ]);
    let r = eval_one(sexpr(vec![lam, num(3), num(4)]));
    assert_eq!(expect_num(r), 7);
}

#[test]
fn currying_matches_direct_application() {
    // ((((\ {x y} {+ x y}) 3) 4) == (\ {x y} {+ x y}) 3 4 == 7
    let lam = sexpr(vec![
        sym("\\"),
        qexpr(vec![sym("x"), sym("y")]),
        qexpr(vec![sym("+"), sym("x"), sym("y")]),
    ]);
    let curried = sexpr(vec![sexpr(vec![lam, num(3)]), num(4)]);
    assert_eq!(expect_num(eval_one(curried)), 7);
}

#[test]
fn partial_application_returns_a_smaller_lambda() {
    let mut env = Env::new();
    let lam = sexpr(vec![
        sym("\\"),
        qexpr(vec![sym("x"), sym("y")]),
        qexpr(vec![sym("+"), sym("x"), sym("y")]),
    ]);
    let r = eval_in(&mut env, sexpr(vec![lam, num(3)])).unwrap();
    match r {
        AST::Function(Function::Lambda(l)) => {
            assert_eq!(l.params.len(), 1);
            assert_eq!(l.params[0], "y");
        }
        other => panic!("expected a lambda, got {}", other.to_text()),
    }
}

#[test]
fn too_many_arguments_for_a_fixed_lambda_fail() {
    let lam = sexpr(vec![
        sym("\\"),
        qexpr(vec![sym("x"), sym("y")]),
        qexpr(vec![sym("+"), sym("x"), sym("y")]),
    ]);
    let r = eval_one(sexpr(vec![lam, num(1), num(2), num(3)]));
    match r {
        Err(EvalError::ArgsMismatch(u)) => {
            assert_eq!(u.expected, 2);
            assert_eq!(u.given, 3);
        }
        other => panic!("expected an arity error, got {:?}", describe(other)),
    }
}

#[test]
fn variadic_lambda_collects_the_surplus() {
    // ((\ {x & rest} {rest}) 1 2 3) binds rest to {2 3}; the body
    // evaluates the Q-expression to itself.
    let lam = sexpr(vec![
        sym("\\"),
        qexpr(vec![sym("x"), sym("&"), sym("rest")]),
        qexpr(vec![sym("rest")]),
    ]);
    let r = eval_one(sexpr(vec![lam, num(1), num(2), num(3)])).unwrap();
    assert!(values_equal(&r, &qexpr(vec![num(2), num(3)])));
}

#[test]
fn more_than_one_name_after_the_marker_fails_at_construction() {
    let r = eval_one(sexpr(vec![
        sym("\\"),
        qexpr(vec![sym("x"), sym("&"), sym("a"), sym("b")]),
        qexpr(vec![num(1)]),
    ]));
    assert!(matches!(r, Err(EvalError::Message("more than one param after &"))));
}

#[test]
fn if_zero_takes_the_second_branch() {
    let r = eval_one(sexpr(vec![
        sym("if"),
        num(0),
        qexpr(vec![num(1)]),
        qexpr(vec![num(2)]),
    ]));
    assert_eq!(expect_num(r), 2);
}

#[test]
fn if_nonzero_takes_the_first_branch() {
    let r = eval_one(sexpr(vec![
        sym("if"),
        num(1),
        qexpr(vec![num(1)]),
        qexpr(vec![num(2)]),
    ]));
    assert_eq!(expect_num(r), 1);
}

#[test]
fn the_untaken_branch_never_runs() {
    let mut env = Env::new();
    // if 0 {def {touched} 1} {2}: the first branch must not execute,
    // so `touched` stays unbound.
    let r = eval_in(
        &mut env,
        sexpr(vec![
            sym("if"),
            num(0),
            qexpr(vec![sym("def"), qexpr(vec![sym("touched")]), num(1)]),
            qexpr(vec![num(2)]),
        ]),
    );
    assert_eq!(expect_num(r), 2);
    assert!(matches!(eval_in(&mut env, sym("touched")), Err(EvalError::UnknownVar(_))));
}

#[test]
fn unknown_variables_are_reported_by_name() {
    match eval_one(sym("nope")) {
        Err(EvalError::UnknownVar(name)) => assert_eq!(name, "nope"),
        other => panic!("expected an unknown-variable error, got {:?}", describe(other)),
    }
}

#[test]
fn applying_a_non_function_fails() {
    let r = eval_one(sexpr(vec![num(1), num(2)]));
    match r {
        Err(EvalError::NotA(kind, offending)) => {
            assert_eq!(kind, "function");
            assert!(values_equal(&offending, &num(1)));
        }
        other => panic!("expected a type error, got {:?}", describe(other)),
    }
}

#[test]
fn error_builtin_raises_a_user_exception() {
    let r = eval_one(sexpr(vec![sym("error"), lit("boom")]));
    match r {
        Err(EvalError::UserDefined(text)) => assert_eq!(text, "boom"),
        other => panic!("expected a user exception, got {:?}", describe(other)),
    }
}

#[test]
fn exit_is_the_termination_signal() {
    // A one-element S-expression is transparent, so the builtin must
    // be applied to something to be invoked at all.
    assert!(matches!(eval_one(sexpr(vec![sym("exit"), num(0)])), Err(EvalError::Exit)));
}

#[test]
fn recursion_runs_out_of_fuel_instead_of_the_stack() {
    let mut env = Env::new();
    // def {loop} (\ {n} {loop n}), then (loop 1) never terminates; the
    // evaluator reports the depth error instead of overflowing.
    let lam = sexpr(vec![
        sym("\\"),
        qexpr(vec![sym("n")]),
        qexpr(vec![sym("loop"), sym("n")]),
    ]);
    eval_in(&mut env, sexpr(vec![sym("def"), qexpr(vec![sym("loop")]), lam])).unwrap();
    let r = eval_in(&mut env, sexpr(vec![sym("loop"), num(1)]));
    assert!(matches!(r, Err(EvalError::Message("recursion too deep"))));
}

#[test]
fn load_runs_forms_and_swallows_their_errors() {
    let mut env = Env::new();
    let forms: Vec<Result<AST, String>> = vec![
        Ok(sexpr(vec![sym("def"), qexpr(vec![sym("x")]), num(3)])),
        Err(String::from("parse error: gibberish")),
        Ok(sexpr(vec![sym("/"), num(1), num(0)])),
        Ok(sexpr(vec![sym("def"), qexpr(vec![sym("y")]), num(4)])),
    ];
    let r = lispy::env::load(&mut env, forms, FUEL);
    assert!(r.is_ok());
    assert_eq!(expect_num(eval_in(&mut env, sym("x"))), 3);
    assert_eq!(expect_num(eval_in(&mut env, sym("y"))), 4);
}

fn describe(r: Result<AST, EvalError>) -> String {
    match r {
        Ok(v) => v.to_text(),
        Err(e) => e.text(),
    }
}

#[test]
fn rendering_is_canonical() {
    let v = sexpr(vec![
        sym("+"),
        num(-12),
        qexpr(vec![lit("a\nb"), num(0)]),
    ]);
    assert_eq!(v.to_text(), "(+ -12 {\"a\\nb\" 0})");
    let f = AST::Function(Function::Builtin(Builtin::Print));
    assert_eq!(f.to_text(), "<function>");
}

#[test]
fn lambdas_render_as_their_form() {
    let r = eval_one(sexpr(vec![
        sym("\\"),
        qexpr(vec![sym("x"), sym("y")]),
        qexpr(vec![sym("+"), sym("x"), sym("y")]),
    ]))
    .unwrap();
    assert_eq!(r.to_text(), "(\\ {x y} {+ x y})");
}

#[test]
fn error_texts_match_their_conditions() {
    let e = eval_one(sexpr(vec![sym("head"), num(1)])).unwrap_err();
    assert_eq!(e.text(), "expected Q-expr, got number");
    let a = eval_one(sexpr(vec![sym("head"), qexpr(vec![]), qexpr(vec![])])).unwrap_err();
    assert_eq!(a.text(), "args mismatch: 1 expected, 2 given");
}

#[test]
fn lambda_new_splits_the_variadic_marker() {
    let params = vec![String::from("x"), String::from("&"), String::from("rest")];
    let body = QExpr(vec![sym("x")]);
    match Lambda::new(params, body).unwrap() {
        AST::Function(Function::Lambda(l)) => {
            assert_eq!(l.params, vec![String::from("x")]);
            assert_eq!(l.vararg, Some(String::from("rest")));
        }
        other => panic!("expected a lambda, got {}", other.to_text()),
    }
}

#[test]
fn wrapping_keeps_arithmetic_total() {
    let r = eval_one(sexpr(vec![sym("+"), num(i128::MAX), num(1)]));
    assert_eq!(expect_num(r), i128::MIN);
}

#[test]
fn load_inside_code_reports_a_read_error() {
    // The interpreter core has no filesystem: evaluating a `load` call
    // yields the read error carrying the path.
    let r = eval_one(sexpr(vec![sym("load"), lit("startup.lspy")]));
    match r {
        Err(EvalError::ReadError(path)) => assert_eq!(path, "startup.lspy"),
        other => panic!("expected a read error, got {:?}", describe(other)),
    }
    let e = eval_one(sexpr(vec![sym("load"), lit("x")])).unwrap_err();
    assert_eq!(e.text(), "error reading file: x");
}

#[test]
fn builtins_called_with_nothing_report_no_arguments() {
    let mut env = Env::new();
    let r = lispy::builtins::add(&mut env, vec![]);
    assert!(matches!(r, Err(EvalError::Message("no arguments"))));
    let j = lispy::builtins::join(&mut env, vec![]);
    assert!(matches!(j, Err(EvalError::Message("no arguments"))));
    let s = lispy::builtins::sub(&mut env, vec![]);
    assert!(matches!(s, Err(EvalError::Message("no arguments"))));
    let b = lispy::transformers::binary_or_unary(vec![]);
    assert!(matches!(b, Err(EvalError::Message("no arguments"))));
}

#[test]
fn if_with_too_few_arguments_is_an_arity_error() {
    let r = eval_one(sexpr(vec![sym("if"), num(1), qexpr(vec![num(1)])]));
    match r {
        Err(EvalError::ArgsMismatch(u)) => {
            assert_eq!(u.expected, 3);
            assert_eq!(u.given, 2);
        }
        other => panic!("expected an arity error, got {:?}", describe(other)),
    }
}

#[test]
fn adapters_check_arity_exactly() {
    let one = lispy::transformers::unary(vec![num(7)]).unwrap();
    assert!(values_equal(&one, &num(7)));
    match lispy::transformers::unary(vec![num(1), num(2)]) {
        Err(EvalError::ArgsMismatch(u)) => {
            assert_eq!(u.expected, 1);
            assert_eq!(u.given, 2);
        }
        other => panic!("expected an arity error, got {:?}", describe(other)),
    }
    let (a, b) = lispy::transformers::binary(vec![num(1), num(2)]).unwrap();
    assert!(values_equal(&a, &num(1)) && values_equal(&b, &num(2)));
    let (x, y) = lispy::transformers::binary_or_unary(vec![num(5)]).unwrap();
    assert!(values_equal(&x, &num(5)) && y.is_none());
}

#[test]
fn extreme_numbers_render_in_decimal() {
    assert_eq!(AST::Number(i128::MIN).to_text(), format!("{}", i128::MIN));
    assert_eq!(AST::Number(i128::MAX).to_text(), format!("{}", i128::MAX));
    assert_eq!(AST::Number(0).to_text(), "0");
}

#[test]
fn symbols_list_must_hold_symbols_only() {
    let r = eval_one(sexpr(vec![
        sym("def"),
        qexpr(vec![sym("x"), num(3)]),
        num(1),
        num(2),
    ]));
    match r {
        Err(EvalError::NotA(kind, offending)) => {
            assert_eq!(kind, "symbol");
            assert!(values_equal(&offending, &num(3)));
        }
        other => panic!("expected a type error, got {:?}", describe(other)),
    }
}

#[test]
fn curried_bindings_match_direct_bindings() {
    // Supplying 3 and then 4 to (\ {x y} ...) builds the same binding
    // table, for the same body, as supplying 3 4 in one call.
    let params = vec![String::from("x"), String::from("y")];
    let body = QExpr(vec![sym("+"), sym("x"), sym("y")]);
    let lam = match Lambda::new(params, body).unwrap() {
        AST::Function(Function::Lambda(l)) => l,
        other => panic!("expected a lambda, got {}", other.to_text()),
    };
    let curried = lam.curry(vec![num(3)]);
    let two_step = curried.bindings_for(vec![num(4)]);
    let one_step = lam.bindings_for(vec![num(3), num(4)]);
    assert_eq!(two_step.len(), one_step.len());
    for (a, b) in two_step.iter().zip(one_step.iter()) {
        assert_eq!(a.0, b.0);
        assert!(values_equal(&a.1, &b.1));
    }
}
