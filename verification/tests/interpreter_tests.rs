use pscm::rational::Rational;
use pscm::env::{env_get, mk_env, require_imperative_constructs, require_sys, require_unsafe, Bindings};
use pscm::error::ScmErr;
use pscm::expr::{Builtin, Expr, ScmLambda, ScmMacro};
use pscm::interpreter::{
    add_exact, apply_list_builtin, begin_item, check_define, define_bind, ExactSum, eval_atom, eval_lambda, eval_macro, eval_target,
    expand_macro, if_branch, if_criterion, lambda_params, located, mk_lambda_env,
    parse_list_of_symbols, require_arg, special_form, IfStep, RequireArg, SpecialForm,
};

fn sym(s: &str) -> Expr {
    Expr::Symbol(s.to_string())
}

fn integral(i: i128) -> Expr {
    Expr::Integral(i)
}

fn list(v: Vec<Expr>) -> Expr {
    Expr::List(v)
}

fn quote(e: Expr) -> Expr {
    Expr::Quote(Box::new(e))
}

fn err(s: &str) -> ScmErr {
    ScmErr::Reason(s.to_string())
}

#[test]
fn global_environment_binds_the_builtins() {
    let env = mk_env();
    assert_eq!(env.ops.get("+"), Some(Expr::Func(Builtin::Add)));
    assert_eq!(env.ops.get("first"), Some(Expr::Func(Builtin::Car)));
    assert_eq!(env.ops.get("rest"), Some(Expr::Func(Builtin::Cdr)));
    assert_eq!(env.ops.get("println"), None);
    assert_eq!(env.ops.keys().len(), 20);
    assert!(env.parent_scope.is_none());
}

#[test]
fn modules_bind_their_procedures() {
    let mut env = mk_env();
    require_sys(&mut env);
    require_unsafe(&mut env);
    require_imperative_constructs(&mut env);
    assert_eq!(env.ops.get("exit"), Some(Expr::Func(Builtin::Exit)));
    assert_eq!(env.ops.get("deref-box"), Some(Expr::Func(Builtin::DerefBox)));
    assert_eq!(env.ops.get("begin"), Some(Expr::Func(Builtin::Begin)));
}

#[test]
fn bindings_keep_one_value_per_name() {
    let mut b = Bindings::new();
    b.insert("x".to_string(), integral(1));
    b.insert("y".to_string(), integral(2));
    b.insert("x".to_string(), integral(3));
    assert_eq!(b.get("x"), Some(integral(3)));
    assert!(b.contains_key("y"));
    assert!(!b.contains_key("z"));
    let mut keys = b.keys();
    keys.sort();
    assert_eq!(keys, vec!["x".to_string(), "y".to_string()]);
}

#[test]
fn lookup_goes_from_the_call_scope_outwards() {
    let outer = mk_env();
    let names = vec!["x".to_string(), "car".to_string()];
    let inner = mk_lambda_env(&names, vec![integral(1), integral(2)], &outer);
    assert_eq!(env_get("x", &inner), Some(integral(1)));
    assert_eq!(env_get("car", &inner), Some(integral(2)));
    assert_eq!(env_get("cdr", &inner), Some(Expr::Func(Builtin::Cdr)));
    assert_eq!(env_get("nope", &inner), None);
    let dup = vec!["a".to_string(), "a".to_string()];
    let inner2 = mk_lambda_env(&dup, vec![integral(1), integral(2)], &outer);
    assert_eq!(env_get("a", &inner2), Some(integral(2)));
}

#[test]
fn atoms_evaluate_to_themselves_or_their_binding() {
    let env = mk_env();
    assert_eq!(eval_atom(&Expr::Bool(true), &env), Some(Ok(Expr::Bool(true))));
    assert_eq!(eval_atom(&quote(sym("a")), &env), Some(Ok(quote(sym("a")))));
    assert_eq!(eval_atom(&sym("cons"), &env), Some(Ok(Expr::Func(Builtin::Cons))));
    assert_eq!(eval_atom(&sym("nope"), &env), Some(Err(err("unexpected symbol nope"))));
    assert_eq!(eval_atom(&Expr::Void, &env), Some(Err(err("unexpected void"))));
    assert_eq!(eval_atom(&Expr::Ptr(0), &env), Some(Err(err("unexpected pointer at the top level"))));
    assert_eq!(eval_atom(&Expr::Func(Builtin::Add), &env), Some(Err(err("unexpected form"))));
    assert_eq!(eval_atom(&list(vec![]), &env), None);
}

#[test]
fn special_forms_are_recognised_by_name() {
    assert_eq!(special_form(&sym("define")), Some(SpecialForm::Define));
    assert_eq!(special_form(&sym("defmacro")), Some(SpecialForm::DefMacro));
    assert_eq!(special_form(&sym("define-macro")), Some(SpecialForm::DefMacro));
    assert_eq!(special_form(&sym("print-env")), Some(SpecialForm::PrintEnv));
    assert_eq!(special_form(&sym("car")), None);
    assert_eq!(special_form(&integral(1)), None);
}

#[test]
fn lambda_forms_make_procedures() {
    let l = eval_lambda(&[list(vec![sym("x")]), sym("x")]).unwrap();
    assert_eq!(l, Expr::Lambda(ScmLambda { params: Box::new(list(vec![sym("x")])), body: Box::new(sym("x")) }));
    assert_eq!(eval_lambda(&[]), Err(err("expected at least one argument in lambda form")));
    assert_eq!(eval_lambda(&[sym("x")]), Err(err("expected body in lambda form")));
    assert_eq!(eval_lambda(&[sym("x"), sym("y"), sym("z")]), Err(err("'lambda' only accepts two forms")));
}

#[test]
fn defmacro_binds_a_macro() {
    let mut env = mk_env();
    let r = eval_macro(&[sym("m"), list(vec![sym("x")]), list(vec![sym("list"), sym("x")])], &mut env);
    assert_eq!(r, Ok(Expr::Void));
    assert_eq!(
        env.ops.get("m"),
        Some(Expr::Macro(ScmMacro { params: Box::new(list(vec![sym("x")])), body: Box::new(list(vec![sym("list"), sym("x")])) }))
    );
    assert_eq!(eval_macro(&[sym("m")], &mut env), Err(err("'defmacro' only accepts three forms")));
    assert_eq!(eval_macro(&[integral(1), list(vec![]), list(vec![])], &mut env), Err(err("expected symbol as first argument")));
    assert_eq!(eval_macro(&[sym("m"), integral(1), list(vec![])], &mut env), Err(err("expected list as second argument")));
    assert_eq!(eval_macro(&[sym("m"), list(vec![]), integral(1)], &mut env), Err(err("expected list as third argument")));
}

#[test]
fn macros_expand_their_parameters() {
    let m = ScmMacro { params: Box::new(list(vec![sym("x"), sym("y")])), body: Box::new(list(vec![sym("list"), sym("x"), sym("y"), sym("x")])) };
    assert_eq!(expand_macro(&m, &[integral(1), integral(2)]), Ok(list(vec![sym("list"), integral(1), integral(2), integral(1)])));
    assert_eq!(expand_macro(&m, &[integral(1)]), Ok(list(vec![sym("list"), integral(1), sym("y"), integral(1)])));
    let bad = ScmMacro { params: Box::new(list(vec![integral(1)])), body: Box::new(list(vec![])) };
    assert_eq!(expand_macro(&bad, &[integral(1)]), Err(err("expected symbol as macro parameter")));
    assert_eq!(expand_macro(&bad, &[]), Ok(list(vec![])));
    let not_list = ScmMacro { params: Box::new(list(vec![])), body: Box::new(integral(1)) };
    assert_eq!(expand_macro(&not_list, &[]), Err(err("expected list as macro body")));
}

#[test]
fn parameter_lists_are_symbols() {
    assert_eq!(parse_list_of_symbols(&list(vec![sym("a"), sym("b")])), Ok(vec!["a".to_string(), "b".to_string()]));
    assert_eq!(parse_list_of_symbols(&sym("a")), Err(err("expected args form to be a list")));
    assert_eq!(parse_list_of_symbols(&list(vec![integral(1)])), Err(err("expected symbols in the argument list")));
    assert_eq!(lambda_params(&list(vec![sym("a"), sym("b")]), 1), Err(err("expected 2 arguments, got 1")));
    assert_eq!(lambda_params(&list(vec![sym("a")]), 1), Ok(vec!["a".to_string()]));
}

#[test]
fn define_checks_its_forms() {
    let env = mk_env();
    assert_eq!(check_define(&[sym("x"), integral(1)], &env), Ok("x".to_string()));
    assert_eq!(check_define(&[], &env), Err(err("Expected at least one argument")));
    assert_eq!(check_define(&[integral(1), integral(1)], &env), Err(err("Expected symbol")));
    assert_eq!(check_define(&[sym("x")], &env), Err(err("Expected at least one form")));
    assert_eq!(check_define(&[sym("x"), integral(1), integral(2)], &env), Err(err("'define' only accepts two forms")));
    assert_eq!(
        check_define(&[sym("car"), integral(1)], &env),
        Err(err("can not overwrite a reserved operation or redefine an existing variable (car) at global scope"))
    );
}

#[test]
fn if_picks_a_branch() {
    let args = [Expr::Bool(true), integral(1), integral(2)];
    assert_eq!(if_criterion(&args), Ok(&args[0]));
    assert_eq!(if_criterion(&[]).err(), Some(err("Expected at least one form")));
    assert!(matches!(if_branch(&args, &Expr::Bool(true)), IfStep::Branch(1)));
    assert!(matches!(if_branch(&args, &Expr::Bool(false)), IfStep::Branch(2)));
    assert!(matches!(if_branch(&args, &integral(0)), IfStep::NotBool));
    match if_branch(&args[..2], &Expr::Bool(false)) {
        IfStep::Missing(e) => assert_eq!(e, err("Expected branch conditional 2")),
        _ => panic!("expected a missing branch"),
    }
}

#[test]
fn eval_and_begin_unquote_lists() {
    assert_eq!(eval_target(&quote(list(vec![sym("a")]))), Ok(list(vec![sym("a")])));
    assert_eq!(eval_target(&quote(sym("a"))), Err(err("expected a list")));
    assert_eq!(eval_target(&list(vec![])), Err(err("expected a quoted list")));
    assert_eq!(begin_item(&list(vec![integral(1)])), Ok(list(vec![integral(1)])));
    assert_eq!(begin_item(&quote(list(vec![integral(1)]))), Ok(list(vec![integral(1)])));
    assert_eq!(begin_item(&integral(1)), Err(err("expected a list")));
}

#[test]
fn require_reads_a_quoted_symbol() {
    assert!(matches!(require_arg(&[quote(sym("sys"))]), RequireArg::Name(s) if s == "sys"));
    assert!(matches!(require_arg(&[sym("sys")]), RequireArg::NotQuoted));
    assert!(matches!(require_arg(&[quote(integral(1))]), RequireArg::Error(e) if e == err("expected a quoted symbol")));
    assert!(matches!(require_arg(&[]), RequireArg::Error(e) if e == err("expected at least one argument in require form")));
}

#[test]
fn errors_carry_their_line() {
    assert_eq!(located(3, "parse", err("no tokens")), err("on line (3): parse error: no tokens"));
    assert_eq!(located(-1, "eval", err("x")), err("on line (-1): eval error: x"));
}

#[test]
fn list_procedures() {
    let l = list(vec![integral(1), integral(2), integral(3)]);
    assert_eq!(apply_list_builtin(Builtin::Cons, &[integral(0), list(vec![integral(1)])]), Ok(list(vec![integral(0), integral(1)])));
    assert_eq!(apply_list_builtin(Builtin::Cons, &[integral(0)]), Err(err("expected a list")));
    assert_eq!(apply_list_builtin(Builtin::Car, &[quote(l.copy())]), Ok(integral(1)));
    assert_eq!(apply_list_builtin(Builtin::Car, &[l.copy()]), Err(err("expected a list")));
    assert_eq!(apply_list_builtin(Builtin::Car, &[quote(list(vec![]))]), Err(err("expected a non-empty list")));
    assert_eq!(apply_list_builtin(Builtin::Cdr, &[quote(l.copy())]), Ok(quote(list(vec![integral(2), integral(3)]))));
    assert_eq!(apply_list_builtin(Builtin::Cdr, &[quote(integral(1))]), Err(err("expected a quoted list")));
    assert_eq!(apply_list_builtin(Builtin::List, &[integral(1), integral(2)]), Ok(list(vec![integral(1), integral(2)])));
    assert_eq!(apply_list_builtin(Builtin::Flip, &[sym("f"), list(vec![integral(1), integral(2)])]), Ok(list(vec![sym("f"), integral(1), sym("f"), integral(2)])));
    assert_eq!(apply_list_builtin(Builtin::Reverse, &[l.copy()]), Ok(list(vec![integral(3), integral(2), integral(1)])));
    assert_eq!(apply_list_builtin(Builtin::IsEmpty, &[list(vec![])]), Ok(Expr::Bool(true)));
    assert_eq!(apply_list_builtin(Builtin::IsEmpty, &[l.copy()]), Ok(Expr::Bool(false)));
    assert_eq!(apply_list_builtin(Builtin::IsEmpty, &[]), Err(err("expected a list")));
}

#[test]
fn copies_are_equal() {
    let e = list(vec![quote(sym("a")), Expr::String("s".to_string()), Expr::Floating(1.5f64.to_bits())]);
    assert_eq!(e.copy(), e);
}

#[test]
fn sorted_keys_orders_names() {
    let mut b = Bindings::new();
    b.insert("reverse".to_string(), integral(1));
    b.insert("car".to_string(), integral(2));
    b.insert("é".to_string(), integral(3));
    b.insert("+".to_string(), integral(4));
    b.insert("zip".to_string(), integral(5));
    b.insert("car".to_string(), integral(6));
    assert_eq!(
        b.sorted_keys(),
        vec!["+".to_string(), "car".to_string(), "reverse".to_string(), "zip".to_string(), "é".to_string()]
    );
    assert_eq!(mk_env().ops.sorted_keys().len(), 20);
    assert_eq!(mk_env().ops.sorted_keys()[0], "*".to_string());
}

#[test]
fn add_exact_sums_integers_and_rationals() {
    assert!(matches!(add_exact(&[integral(1), integral(2), integral(3)]), ExactSum::Done(Ok(Expr::Integral(6)))));
    let half = Expr::Rational(Rational::new(1, 2));
    let third = Expr::Rational(Rational::new(1, 3));
    assert!(matches!(add_exact(&[half, third]), ExactSum::Done(Ok(Expr::Rational(Rational { num: 5, den: 6 })))));
    match add_exact(&[integral(1), Expr::Floating(2.0f64.to_bits())]) {
        ExactSum::Done(Err(e)) => assert_eq!(e, err("Expected number")),
        _ => panic!("expected an error"),
    }
    match add_exact(&[]) {
        ExactSum::Done(Err(e)) => assert_eq!(e, err("expected at least one number")),
        _ => panic!("expected an error"),
    }
    assert!(matches!(add_exact(&[Expr::Floating(2.0f64.to_bits())]), ExactSum::Floating));
    assert!(matches!(
        add_exact(&[Expr::Rational(Rational::new(1, 2)), Expr::Floating(2.0f64.to_bits())]),
        ExactSum::Floating
    ));
    assert!(matches!(add_exact(&[integral(i128::MAX), integral(1)]), ExactSum::Overflow));
    assert!(matches!(
        add_exact(&[Expr::Rational(Rational::new(i32::MAX, 1)), Expr::Rational(Rational::new(1, 1))]),
        ExactSum::Overflow
    ));
}

#[test]
fn define_bind_binds_the_value() {
    let mut env = mk_env();
    let args = [sym("x"), integral(1)];
    assert_eq!(check_define(&args, &env), Ok("x".to_string()));
    assert_eq!(define_bind(&args, integral(7), &mut env), Ok(sym("x")));
    assert_eq!(env_get("x", &env), Some(integral(7)));
}
