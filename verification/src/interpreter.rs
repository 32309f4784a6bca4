//! The decisions of the evaluator: which special form a list is, what each
//! special form checks and builds, how arguments are bound, how macros
//! expand, and the procedures on lists.
use vstd::prelude::*;
use crate::env::{Bindings, Env, resolve};
use crate::error::{ScmErr, ScmResult};
use crate::expr::{Builtin, Expr, ScmLambda, ScmMacro, Val, lemma_val_of_list, outcome, val_of, vals_of};
use crate::modules::Module;
use crate::numeral::{int_text, int_to_text};
use crate::rational::{Rational, sum_ok, sum_spec};
use crate::text::{concat, same_text};

verus! {

broadcast use vstd::std_specs::vec::group_vec_axioms;

/// The forms that the evaluator handles itself rather than as a call.
#[derive(Clone, Copy, Debug, PartialEq, Eq)]
pub enum SpecialForm {
    Define,
    If,
    Lambda,
    Require,
    Eval,
    PrintEnv,
    DefMacro,
    Begin,
}

/// Which special form a list whose head has the value `head` is, if any.
pub open spec fn special_form_spec(head: Val) -> Option<SpecialForm> {
    match head {
        Val::Symbol(s) => if s == "define"@ {
            Some(SpecialForm::Define)
        } else if s == "if"@ {
            Some(SpecialForm::If)
        } else if s == "lambda"@ {
            Some(SpecialForm::Lambda)
        } else if s == "require"@ {
            Some(SpecialForm::Require)
        } else if s == "eval"@ {
            Some(SpecialForm::Eval)
        } else if s == "print-env"@ {
            Some(SpecialForm::PrintEnv)
        } else if s == "define-macro"@ || s == "defmacro"@ {
            Some(SpecialForm::DefMacro)
        } else if s == "begin"@ {
            Some(SpecialForm::Begin)
        } else {
            None
        },
        _ => None,
    }
}

/// Which special form a list that starts with `head` is, if any.
pub fn special_form(head: &Expr) -> (r: Option<SpecialForm>)
    ensures
        r == special_form_spec(head@),
{
    match head {
        Expr::Symbol(s) => {
            let s = s.as_str();
            if same_text(s, "define") {
                Some(SpecialForm::Define)
            } else if same_text(s, "if") {
                Some(SpecialForm::If)
            } else if same_text(s, "lambda") {
                Some(SpecialForm::Lambda)
            } else if same_text(s, "require") {
                Some(SpecialForm::Require)
            } else if same_text(s, "eval") {
                Some(SpecialForm::Eval)
            } else if same_text(s, "print-env") {
                Some(SpecialForm::PrintEnv)
            } else if same_text(s, "define-macro") || same_text(s, "defmacro") {
                Some(SpecialForm::DefMacro)
            } else if same_text(s, "begin") {
                Some(SpecialForm::Begin)
            } else {
                None
            }
        },
        _ => None,
    }
}

/// What evaluating an expression that is no list gives: itself for data,
/// the binding of a symbol, an error for procedures, boxes and the void value.
/// `None` for lists and macros.
pub open spec fn eval_atom_spec(exp: Val, env: &Env) -> Option<Result<Val, Seq<char>>> {
    match exp {
        Val::Bool(_) | Val::Quote(_) | Val::Str(_) | Val::Floating(_) | Val::Rational(_) | Val::Integral(_) => Some(Ok(exp)),
        Val::Symbol(s) => match resolve(env, s) {
            Some(v) => Some(Ok(v)),
            None => Some(Err("unexpected symbol "@ + s)),
        },
        Val::Func(_) | Val::Lambda(_, _) => Some(Err("unexpected form"@)),
        Val::Ptr(_) => Some(Err("unexpected pointer at the top level"@)),
        Val::Void => Some(Err("unexpected void"@)),
        Val::List(_) | Val::Macro(_, _) => None,
    }
}

/// Evaluates an expression that is no list.
pub fn eval_atom(exp: &Expr, env: &Env) -> (r: Option<ScmResult<Expr>>)
    ensures
        match r {
            Some(o) => eval_atom_spec(exp@, env) == Some(outcome(o)),
            None => eval_atom_spec(exp@, env) is None,
        },
{
    match exp {
        Expr::Bool(_) | Expr::Quote(_) | Expr::String(_) | Expr::Floating(_) | Expr::Rational(_) | Expr::Integral(_) => {
            Some(Ok(exp.copy()))
        },
        Expr::Symbol(s) => match crate::env::env_get(s.as_str(), env) {
            Some(v) => Some(Ok(v)),
            None => Some(Err(ScmErr::Reason(concat("unexpected symbol ", s.as_str())))),
        },
        Expr::Func(_) | Expr::Lambda(_) => Some(Err(ScmErr::reason("unexpected form"))),
        Expr::Ptr(_) => Some(Err(ScmErr::reason("unexpected pointer at the top level"))),
        Expr::Void => Some(Err(ScmErr::reason("unexpected void"))),
        Expr::List(_) | Expr::Macro(_) => None,
    }
}

/// What `(lambda params body)` gives, for the forms after `lambda`.
pub open spec fn eval_lambda_spec(args: Seq<Val>) -> Result<Val, Seq<char>> {
    if args.len() > 2 {
        Err("'lambda' only accepts two forms"@)
    } else if args.len() == 0 {
        Err("expected at least one argument in lambda form"@)
    } else if args.len() == 1 {
        Err("expected body in lambda form"@)
    } else {
        Ok(Val::Lambda(Box::new(args[0]), Box::new(args[1])))
    }
}

/// Makes a procedure from the forms after `lambda`: a parameter list and a body.
pub fn eval_lambda(args: &[Expr]) -> (r: ScmResult<Expr>)
    ensures
        outcome(r) == eval_lambda_spec(vals_of(args@)),
{
    if args.len() > 2 {
        return Err(ScmErr::reason("'lambda' only accepts two forms"));
    }
    if args.len() == 0 {
        return Err(ScmErr::reason("expected at least one argument in lambda form"));
    }
    if args.len() == 1 {
        return Err(ScmErr::reason("expected body in lambda form"));
    }
    Ok(Expr::Lambda(ScmLambda { params: Box::new(args[0].copy()), body: Box::new(args[1].copy()) }))
}

/// What `(defmacro name params body)` checks, for the forms after `defmacro`:
/// `None` where it accepts them, the error message where it does not.
pub open spec fn eval_macro_error(args: Seq<Val>) -> Option<Seq<char>> {
    if args.len() != 3 {
        Some("'defmacro' only accepts three forms"@)
    } else if !(args[0] is Symbol) {
        Some("expected symbol as first argument"@)
    } else if !(args[1] is List) {
        Some("expected list as second argument"@)
    } else if !(args[2] is List) {
        Some("expected list as third argument"@)
    } else {
        None
    }
}

/// Defines a macro from the forms after `defmacro`: a name, a parameter list
/// and a body list. The macro is bound to the name in `env`.
pub fn eval_macro(args: &[Expr], env: &mut Env) -> (r: ScmResult<Expr>)
    ensures
        match eval_macro_error(vals_of(args@)) {
            Some(msg) => outcome(r) == Err::<Val, Seq<char>>(msg) && final(env).ops@ == old(env).ops@,
            None => outcome(r) == Ok::<Val, Seq<char>>(Val::Void) && final(env).ops@ == old(env).ops@.insert(
                vals_of(args@)[0]->Symbol_0,
                Val::Macro(Box::new(vals_of(args@)[1]), Box::new(vals_of(args@)[2])),
            ),
        },
        final(env).parent_scope == old(env).parent_scope,
        final(env).search_path == old(env).search_path,
        final(env).loaded_modules == old(env).loaded_modules,
{
    if args.len() != 3 {
        return Err(ScmErr::reason("'defmacro' only accepts three forms"));
    }
    let name = match &args[0] {
        Expr::Symbol(name) => name.clone(),
        _ => {
            return Err(ScmErr::reason("expected symbol as first argument"));
        },
    };
    let params = match &args[1] {
        Expr::List(params) => {
            let copied = crate::expr::copy_all(params);
            proof {
                lemma_val_of_list(copied);
                lemma_val_of_list(*params);
            }
            Box::new(Expr::List(copied))
        },
        _ => {
            return Err(ScmErr::reason("expected list as second argument"));
        },
    };
    let body = match &args[2] {
        Expr::List(_) => Box::new(args[2].copy()),
        _ => {
            return Err(ScmErr::reason("expected list as third argument"));
        },
    };
    env.ops.insert(name, Expr::Macro(ScmMacro { params, body }));
    Ok(Expr::Void)
}

/// The names of a parameter list, or the error that `parse_list_of_symbols` reports.
pub open spec fn symbols_of(args: Val) -> Result<Seq<Seq<char>>, Seq<char>> {
    match args {
        Val::List(l) => if forall|i: int| 0 <= i < l.len() ==> (#[trigger] l[i]) is Symbol {
            Ok(Seq::new(l.len(), |i: int| l[i]->Symbol_0))
        } else {
            Err("expected symbols in the argument list"@)
        },
        _ => Err("expected args form to be a list"@),
    }
}

/// The names of a parameter list: a list of symbols.
pub fn parse_list_of_symbols(args: &Expr) -> (r: ScmResult<Vec<String>>)
    ensures
        match r {
            Ok(v) => symbols_of(args@) == Ok::<Seq<Seq<char>>, Seq<char>>(v@.map_values(|s: String| s@)),
            Err(e) => symbols_of(args@) == Err::<Seq<Seq<char>>, Seq<char>>(e.message()),
        },
{
    let list = match args {
        Expr::List(l) => l,
        _ => {
            return Err(ScmErr::reason("expected args form to be a list"));
        },
    };
    proof {
        lemma_val_of_list(*list);
    }
    let mut out: Vec<String> = Vec::new();
    let mut i: usize = 0;
    while i < list.len()
        invariant
            args@ == Val::List(vals_of(list@)),
            i <= list@.len(),
            out@.len() == i,
            forall|j: int| 0 <= j < i ==> val_of(#[trigger] list@[j]) is Symbol,
            forall|j: int| 0 <= j < i ==> (#[trigger] out@[j])@ == val_of(list@[j])->Symbol_0,
        decreases list.len() - i,
    {
        match &list[i] {
            Expr::Symbol(s) => {
                out.push(s.clone());
                proof {
                    assert(val_of(list@[i as int]) is Symbol);
                    assert(out@[i as int]@ == val_of(list@[i as int])->Symbol_0);
                }
            },
            _ => {
                proof {
                    assert(!(vals_of(list@)[i as int] is Symbol));
                }
                return Err(ScmErr::reason("expected symbols in the argument list"));
            },
        }
        i = i + 1;
    }
    proof {
        let l = vals_of(list@);
        assert forall|k: int| 0 <= k < l.len() implies (#[trigger] l[k]) is Symbol by {
            assert(val_of(list@[k]) is Symbol);
        }
        assert(out@.map_values(|s: String| s@) =~= Seq::new(l.len(), |k: int| l[k]->Symbol_0));
    }
    Ok(out)
}

/// The parameters of a procedure called with `arg_count` arguments: its
/// parameter names, or the error that the call reports.
pub open spec fn lambda_params_spec(params: Val, arg_count: nat) -> Result<Seq<Seq<char>>, Seq<char>> {
    match symbols_of(params) {
        Ok(syms) => if syms.len() != arg_count {
            Err("expected "@ + int_text(syms.len() as int) + " arguments, got "@ + int_text(arg_count as int))
        } else {
            Ok(syms)
        },
        Err(e) => Err(e),
    }
}

/// The names that a procedure with parameter list `params` binds, when it is
/// called with `arg_count` arguments.
pub fn lambda_params(params: &Expr, arg_count: usize) -> (r: ScmResult<Vec<String>>)
    ensures
        match r {
            Ok(v) => lambda_params_spec(params@, arg_count as nat) == Ok::<Seq<Seq<char>>, Seq<char>>(
                v@.map_values(|s: String| s@),
            ),
            Err(e) => lambda_params_spec(params@, arg_count as nat) == Err::<Seq<Seq<char>>, Seq<char>>(
                e.message(),
            ),
        },
{
    let syms = parse_list_of_symbols(params)?;
    if syms.len() != arg_count {
        let a = concat("expected ", int_to_text(syms.len() as i128).as_str());
        let b = concat(a.as_str(), " arguments, got ");
        let c = concat(b.as_str(), int_to_text(arg_count as i128).as_str());
        return Err(ScmErr::Reason(c));
    }
    Ok(syms)
}

/// The bindings that pairing `names` with `values` makes; a later pair for a name wins.
pub open spec fn bind_all(names: Seq<Seq<char>>, values: Seq<Val>) -> Map<Seq<char>, Val>
    decreases names.len(),
{
    if names.len() == 0 || values.len() == 0 {
        Map::empty()
    } else {
        let n = if names.len() < values.len() { names.len() } else { values.len() };
        bind_all(names.take(n - 1), values.take(n - 1)).insert(names[n - 1], values[n - 1])
    }
}

/// The scope of a call: `names` bound to `values` (as far as both go), inside `outer`,
/// with the search path and the loaded modules of `outer`.
pub fn mk_lambda_env<'a>(names: &Vec<String>, values: Vec<Expr>, outer: &'a Env<'a>) -> (r: Env<'a>)
    ensures
        r.ops@ == bind_all(names@.map_values(|s: String| s@), vals_of(values@)),
        r.parent_scope == Some(outer),
        r.search_path == outer.search_path,
        r.loaded_modules@ == outer.loaded_modules@,
{
    let mut ops = Bindings::new();
    let n = if names.len() < values.len() { names.len() } else { values.len() };
    let mut i: usize = 0;
    let ghost ns = names@.map_values(|s: String| s@);
    let ghost vs = vals_of(values@);
    while i < n
        invariant
            i <= n,
            n == if names@.len() < values@.len() { names@.len() } else { values@.len() },
            ns == names@.map_values(|s: String| s@),
            vs == vals_of(values@),
            ops@ == bind_all(ns.take(i as int), vs.take(i as int)),
        decreases n - i,
    {
        proof {
            let ns2 = ns.take(i + 1);
            let vs2 = vs.take(i + 1);
            assert(ns2.take(i as int) =~= ns.take(i as int));
            assert(vs2.take(i as int) =~= vs.take(i as int));
        }
        ops.insert(names[i].clone(), values[i].copy());
        i = i + 1;
    }
    proof {
        if names@.len() <= values@.len() {
            assert(ns.take(n as int) =~= ns);
        }
        lemma_bind_all_prefix(ns, vs, n as int);
    }
    Env {
        ops,
        parent_scope: Some(outer),
        search_path: outer.search_path.clone(),
        loaded_modules: copy_modules(&outer.loaded_modules),
    }
}

/// Binding names to values pairs them up only as far as the shorter list goes.
proof fn lemma_bind_all_prefix(ns: Seq<Seq<char>>, vs: Seq<Val>, n: int)
    requires
        n == if ns.len() < vs.len() { ns.len() as int } else { vs.len() as int },
    ensures
        bind_all(ns.take(n), vs.take(n)) == bind_all(ns, vs),
    decreases ns.len(),
{
    if ns.len() == 0 || vs.len() == 0 {
        assert(ns.take(n).len() == 0 || vs.take(n).len() == 0);
    } else {
        let a = ns.take(n);
        let b = vs.take(n);
        assert(a.take(n - 1) =~= ns.take(n - 1));
        assert(b.take(n - 1) =~= vs.take(n - 1));
    }
}

/// A copy of a list of loaded modules.
fn copy_modules(v: &Vec<Module>) -> (r: Vec<Module>)
    ensures
        r@ == v@,
{
    let mut out: Vec<Module> = Vec::new();
    let mut i: usize = 0;
    while i < v.len()
        invariant
            i <= v@.len(),
            out@ == v@.take(i as int),
        decreases v.len() - i,
    {
        out.push(Module { name: v[i].name.clone(), loaded_from: v[i].loaded_from.clone() });
        proof {
            assert(out@ =~= v@.take(i + 1));
        }
        i = i + 1;
    }
    proof {
        assert(v@.take(i as int) =~= v@);
    }
    out
}

/// The bindings that a macro call makes from the first `n` pairs of
/// parameters and arguments, or the error for a parameter that is no symbol.
pub open spec fn macro_bindings(params: Seq<Val>, args: Seq<Val>, n: nat) -> Result<Map<Seq<char>, Val>, Seq<char>>
    decreases n,
{
    if n == 0 {
        Ok(Map::empty())
    } else {
        match macro_bindings(params, args, (n - 1) as nat) {
            Err(e) => Err(e),
            Ok(m) => if params[n - 1] is Symbol {
                Ok(m.insert(params[n - 1]->Symbol_0, args[n - 1]))
            } else {
                Err("expected symbol as macro parameter"@)
            },
        }
    }
}

/// `body` with each symbol that `m` binds replaced by its binding.
pub open spec fn substitute(body: Seq<Val>, m: Map<Seq<char>, Val>) -> Seq<Val> {
    Seq::new(
        body.len(),
        |i: int|
            match body[i] {
                Val::Symbol(s) => if m.contains_key(s) {
                    m[s]
                } else {
                    body[i]
                },
                _ => body[i],
            },
    )
}

/// What expanding a macro with parameter list `params` and body `body` on
/// the (unevaluated) arguments `args` gives.
pub open spec fn expand_macro_spec(params: Val, body: Val, args: Seq<Val>) -> Result<Val, Seq<char>> {
    match params {
        Val::List(ps) => {
            let n = if ps.len() < args.len() { ps.len() } else { args.len() };
            match macro_bindings(ps, args, n) {
                Err(e) => Err(e),
                Ok(m) => match body {
                    Val::List(b) => Ok(Val::List(substitute(b, m))),
                    _ => Err("expected list as macro body"@),
                },
            }
        },
        _ => Err("expected list as macro parameters"@),
    }
}

/// Expands a macro: binds its parameters to the arguments as they are
/// written, and replaces those parameters where they stand in its body list.
pub fn expand_macro(macro_fn: &ScmMacro, args: &[Expr]) -> (r: ScmResult<Expr>)
    ensures
        outcome(r) == expand_macro_spec(macro_fn.params@, macro_fn.body@, vals_of(args@)),
{
    let params = match &*macro_fn.params {
        Expr::List(params) => params,
        _ => {
            return Err(ScmErr::reason("expected list as macro parameters"));
        },
    };
    proof {
        lemma_val_of_list(*params);
    }
    let ghost ps = vals_of(params@);
    let ghost avs = vals_of(args@);
    let n = if params.len() < args.len() { params.len() } else { args.len() };
    let mut bindings = Bindings::new();
    let mut i: usize = 0;
    while i < n
        invariant
            i <= n,
            n == if params@.len() < args@.len() { params@.len() } else { args@.len() },
            ps == vals_of(params@),
            avs == vals_of(args@),
            macro_fn.params@ == Val::List(ps),
            macro_bindings(ps, avs, i as nat) == Ok::<Map<Seq<char>, Val>, Seq<char>>(bindings@),
        decreases n - i,
    {
        match &params[i] {
            Expr::Symbol(name) => {
                bindings.insert(name.clone(), args[i].copy());
            },
            _ => {
                proof {
                    assert(!(ps[i as int] is Symbol));
                    assert(macro_bindings(ps, avs, (i + 1) as nat) is Err);
                    lemma_macro_bindings_err(ps, avs, (i + 1) as nat, n as nat);
                }
                return Err(ScmErr::reason("expected symbol as macro parameter"));
            },
        }
        i = i + 1;
    }
    let body = match &*macro_fn.body {
        Expr::List(body) => body,
        _ => {
            return Err(ScmErr::reason("expected list as macro body"));
        },
    };
    proof {
        lemma_val_of_list(*body);
    }
    let mut expanded: Vec<Expr> = Vec::new();
    let mut k: usize = 0;
    while k < body.len()
        invariant
            k <= body@.len(),
            expanded@.len() == k,
            forall|j: int| 0 <= j < k ==> val_of(#[trigger] expanded@[j]) == substitute(vals_of(body@), bindings@)[j],
        decreases body.len() - k,
    {
        match &body[k] {
            Expr::Symbol(name) => {
                match bindings.get(name.as_str()) {
                    Some(binding) => expanded.push(binding),
                    None => expanded.push(body[k].copy()),
                }
            },
            _ => expanded.push(body[k].copy()),
        }
        k = k + 1;
    }
    proof {
        lemma_val_of_list(expanded);
        assert(vals_of(expanded@) =~= substitute(vals_of(body@), bindings@));
    }
    Ok(Expr::List(expanded))
}

/// Once binding macro parameters fails, binding more of them fails the same way.
proof fn lemma_macro_bindings_err(ps: Seq<Val>, avs: Seq<Val>, k: nat, n: nat)
    requires
        1 <= k <= n,
        macro_bindings(ps, avs, k) is Err,
    ensures
        macro_bindings(ps, avs, n) == macro_bindings(ps, avs, k),
    decreases n - k,
{
    if k < n {
        lemma_macro_bindings_err(ps, avs, k, (n - 1) as nat);
    }
}

/// What `(define name value)` checks, for the forms after `define`, before
/// `value` is evaluated: the name to bind, or the error.
pub open spec fn define_check(args: Seq<Val>, ops: Map<Seq<char>, Val>) -> Result<Seq<char>, Seq<char>> {
    if args.len() > 2 {
        Err("'define' only accepts two forms"@)
    } else if args.len() == 0 {
        Err("Expected at least one argument"@)
    } else if !(args[0] is Symbol) {
        Err("Expected symbol"@)
    } else if ops.contains_key(args[0]->Symbol_0) {
        Err(
            "can not overwrite a reserved operation or redefine an existing variable ("@ + args[0]->Symbol_0
                + ") at global scope"@,
        )
    } else if args.len() == 1 {
        Err("Expected at least one form"@)
    } else {
        Ok(args[0]->Symbol_0)
    }
}

/// Checks the forms after `define`: the name to bind, which the innermost
/// scope must not bind yet. The value, the second form, is evaluated next.
pub fn check_define(args: &[Expr], env: &Env) -> (r: ScmResult<String>)
    ensures
        match r {
            Ok(name) => define_check(vals_of(args@), env.ops@) == Ok::<Seq<char>, Seq<char>>(name@),
            Err(e) => define_check(vals_of(args@), env.ops@) == Err::<Seq<char>, Seq<char>>(e.message()),
        },
        r is Ok ==> args@.len() == 2 && args@[0]@ is Symbol,
{
    if args.len() > 2 {
        return Err(ScmErr::reason("'define' only accepts two forms"));
    }
    if args.len() == 0 {
        return Err(ScmErr::reason("Expected at least one argument"));
    }
    let name = match &args[0] {
        Expr::Symbol(s) => s.clone(),
        _ => {
            return Err(ScmErr::reason("Expected symbol"));
        },
    };
    if env.ops.contains_key(name.as_str()) {
        let a = concat("can not overwrite a reserved operation or redefine an existing variable (", name.as_str());
        return Err(ScmErr::Reason(concat(a.as_str(), ") at global scope")));
    }
    if args.len() == 1 {
        return Err(ScmErr::reason("Expected at least one form"));
    }
    Ok(name)
}

/// The criterion of `(if c a b)`, for the forms after `if`.
pub fn if_criterion(args: &[Expr]) -> (r: ScmResult<&Expr>)
    ensures
        match r {
            Ok(c) => args@.len() >= 1 && *c == args@[0],
            Err(e) => args@.len() == 0 && e.message() == "Expected at least one form"@,
        },
{
    if args.len() == 0 {
        return Err(ScmErr::reason("Expected at least one form"));
    }
    Ok(&args[0])
}

/// Where an `if` goes once its criterion is evaluated.
pub enum IfStep {
    /// Evaluate the form at this place after `if`.
    Branch(usize),
    /// The branch that the criterion picks is missing.
    Missing(ScmErr),
    /// The criterion is no boolean.
    NotBool,
}

/// Which branch of `(if c a b)` the value `crit` of the criterion picks:
/// `a` (place 1) for true, `b` (place 2) for false.
pub fn if_branch(args: &[Expr], crit: &Expr) -> (r: IfStep)
    ensures
        match crit@ {
            Val::Bool(b) => {
                let k: int = if b { 1 } else { 2 };
                if k < args@.len() {
                    r == IfStep::Branch(k as usize)
                } else {
                    r matches IfStep::Missing(e) && e.message() == "Expected branch conditional "@ + int_text(k)
                }
            },
            _ => r is NotBool,
        },
{
    match crit {
        Expr::Bool(b) => {
            let branch: usize = if *b { 1 } else { 2 };
            if branch < args.len() {
                IfStep::Branch(branch)
            } else {
                IfStep::Missing(ScmErr::Reason(concat("Expected branch conditional ", int_to_text(branch as i128).as_str())))
            }
        },
        _ => IfStep::NotBool,
    }
}

/// What `(eval 'list)` evaluates: the quoted list itself.
pub fn eval_target(arg: &Expr) -> (r: ScmResult<Expr>)
    ensures
        outcome(r) == match arg@ {
            Val::Quote(q) => match *q {
                Val::List(l) => Ok(Val::List(l)),
                _ => Err("expected a list"@),
            },
            _ => Err("expected a quoted list"@),
        },
{
    match arg {
        Expr::Quote(q) => {
            let inner: &Expr = &**q;
            assert(arg@ == Val::Quote(Box::new(inner@)));
            match inner {
                Expr::List(_) => Ok(inner.copy()),
                _ => Err(ScmErr::reason("expected a list")),
            }
        },
        _ => Err(ScmErr::reason("expected a quoted list")),
    }
}

/// A list that the `begin` procedure evaluates: a list, or a quoted list.
pub fn begin_item(arg: &Expr) -> (r: ScmResult<Expr>)
    ensures
        outcome(r) == match arg@ {
            Val::List(l) => Ok(Val::List(l)),
            Val::Quote(q) => match *q {
                Val::List(l) => Ok(Val::List(l)),
                _ => Err("expected a list"@),
            },
            _ => Err("expected a list"@),
        },
{
    match arg {
        Expr::List(_) => Ok(arg.copy()),
        Expr::Quote(q) => {
            let inner: &Expr = &**q;
            assert(arg@ == Val::Quote(Box::new(inner@)));
            match inner {
                Expr::List(_) => Ok(inner.copy()),
                _ => Err(ScmErr::reason("expected a list")),
            }
        },
        _ => Err(ScmErr::reason("expected a list")),
    }
}

/// The argument of a `require`.
pub enum RequireArg {
    /// A quoted symbol: the name of the module.
    Name(String),
    /// Something that is not quoted, which the error message shows.
    NotQuoted,
    /// An error with a fixed message.
    Error(ScmErr),
}

/// Reads the argument of `(require 'name)`.
pub fn require_arg(args: &[Expr]) -> (r: RequireArg)
    ensures
        args@.len() == 0 ==> (r matches RequireArg::Error(e) && e.message() == "expected at least one argument in require form"@),
        args@.len() > 0 ==> match args@[0]@ {
            Val::Quote(q) => match *q {
                Val::Symbol(s) => r matches RequireArg::Name(n) && n@ == s,
                _ => r matches RequireArg::Error(e) && e.message() == "expected a quoted symbol"@,
            },
            _ => r is NotQuoted,
        },
{
    if args.len() == 0 {
        return RequireArg::Error(ScmErr::reason("expected at least one argument in require form"));
    }
    match &args[0] {
        Expr::Quote(q) => {
            let inner: &Expr = &**q;
            assert(args@[0]@ == Val::Quote(Box::new(inner@)));
            match inner {
                Expr::Symbol(s) => RequireArg::Name(s.clone()),
                _ => RequireArg::Error(ScmErr::reason("expected a quoted symbol")),
            }
        },
        _ => RequireArg::NotQuoted,
    }
}

/// The error `e` of the given stage (`parse` or `eval`), with the line it was met on.
pub fn located(line: i32, stage: &str, e: ScmErr) -> (r: ScmErr)
    ensures
        r.message() == "on line ("@ + int_text(line as int) + "): "@ + stage@ + " error: "@ + e.message(),
{
    let a = concat("on line (", int_to_text(line as i128).as_str());
    let b = concat(a.as_str(), "): ");
    let c = concat(b.as_str(), stage);
    let d = concat(c.as_str(), " error: ");
    let msg = e.to_string();
    ScmErr::Reason(concat(d.as_str(), msg.as_str()))
}

/// The procedures on lists, which compute with nothing but the lists they are given.
pub open spec fn is_list_builtin(b: Builtin) -> bool {
    match b {
        Builtin::IsEmpty | Builtin::Cons | Builtin::Car | Builtin::Cdr | Builtin::List | Builtin::Flip
        | Builtin::Reverse => true,
        _ => false,
    }
}

/// `f` before each element of `l`.
pub open spec fn interleave(f: Val, l: Seq<Val>) -> Seq<Val> {
    Seq::new(2 * l.len(), |i: int| if i % 2 == 0 { f } else { l[i / 2] })
}

/// What the procedure on lists `b` gives for the arguments `args`.
pub open spec fn list_builtin_spec(b: Builtin, args: Seq<Val>) -> Result<Val, Seq<char>> {
    match b {
        Builtin::IsEmpty => if args.len() > 0 && args[0] is List {
            Ok(Val::Bool(args[0]->List_0.len() == 0))
        } else {
            Err("expected a list"@)
        },
        Builtin::Cons => if args.len() > 1 && args[1] is List {
            Ok(Val::List(seq![args[0]] + args[1]->List_0))
        } else {
            Err("expected a list"@)
        },
        Builtin::Car => if args.len() > 0 && args[0] is Quote {
            match *args[0]->Quote_0 {
                Val::List(l) => if l.len() > 0 {
                    Ok(l[0])
                } else {
                    Err("expected a non-empty list"@)
                },
                _ => Err("expected a list"@),
            }
        } else {
            Err("expected a list"@)
        },
        Builtin::Cdr => if args.len() > 0 && args[0] is Quote {
            match *args[0]->Quote_0 {
                Val::List(l) => if l.len() > 0 {
                    Ok(Val::Quote(Box::new(Val::List(l.drop_first()))))
                } else {
                    Err("expected a non-empty list"@)
                },
                _ => Err("expected a quoted list"@),
            }
        } else {
            Err("expected a list"@)
        },
        Builtin::List => Ok(Val::List(args)),
        Builtin::Flip => if args.len() > 1 && args[1] is List {
            Ok(Val::List(interleave(args[0], args[1]->List_0)))
        } else {
            Err("expected a list"@)
        },
        Builtin::Reverse => if args.len() > 0 && args[0] is List {
            Ok(Val::List(args[0]->List_0.reverse()))
        } else {
            Err("expected a list"@)
        },
        _ => Err(Seq::empty()),
    }
}

/// The list that `e` is, if it is one.
fn as_list(e: &Expr) -> (r: Option<&Vec<Expr>>)
    ensures
        match r {
            Some(v) => e@ == Val::List(vals_of(v@)),
            None => !(e@ is List),
        },
{
    match e {
        Expr::List(v) => {
            proof {
                lemma_val_of_list(*v);
            }
            Some(v)
        },
        _ => None,
    }
}

/// The list inside `e`, if `e` is a quoted list; `Err(true)` for another
/// quoted value, `Err(false)` for a value that is not quoted.
fn as_quoted_list(e: &Expr) -> (r: Result<&Vec<Expr>, bool>)
    ensures
        match r {
            Ok(v) => e@ is Quote && *(e@->Quote_0) == Val::List(vals_of(v@)),
            Err(quoted) => quoted == (e@ is Quote) && (e@ is Quote ==> !(*(e@->Quote_0) is List)),
        },
{
    match e {
        Expr::Quote(q) => {
            let inner: &Expr = &**q;
            proof {
                assert(e@ == Val::Quote(Box::new(inner@)));
            }
            match inner {
                Expr::List(v) => {
                    proof {
                        lemma_val_of_list(*v);
                    }
                    Ok(v)
                },
                _ => Err(true),
            }
        },
        _ => Err(false),
    }
}

/// Applies the procedure on lists `b` to the evaluated arguments `args`.
/// `cons` and `flip` take their first argument as it is, and need one.
pub fn apply_list_builtin(b: Builtin, args: &[Expr]) -> (r: ScmResult<Expr>)
    requires
        is_list_builtin(b),
        b == Builtin::Cons || b == Builtin::Flip ==> args@.len() >= 1,
    ensures
        outcome(r) == list_builtin_spec(b, vals_of(args@)),
{
    let ghost avs = vals_of(args@);
    match b {
        Builtin::IsEmpty => {
            if args.len() > 0 {
                if let Some(l) = as_list(&args[0]) {
                    return Ok(Expr::Bool(l.len() == 0));
                }
            }
            Err(ScmErr::reason("expected a list"))
        },
        Builtin::Cons => {
            if args.len() > 1 {
                if let Some(l) = as_list(&args[1]) {
                    let mut out: Vec<Expr> = Vec::new();
                    out.push(args[0].copy());
                    let rest = crate::expr::copy_all(l);
                    let mut i: usize = 0;
                    while i < rest.len()
                        invariant
                            i <= rest@.len(),
                            out@.len() == i + 1,
                            val_of(out@[0]) == val_of(args@[0]),
                            forall|j: int| 1 <= j <= i ==> val_of(#[trigger] out@[j]) == val_of(rest@[j - 1]),
                        decreases rest.len() - i,
                    {
                        out.push(rest[i].copy());
                        i = i + 1;
                    }
                    proof {
                        lemma_val_of_list(out);
                        assert(vals_of(out@) =~= seq![avs[0]] + vals_of(rest@));
                    }
                    return Ok(Expr::List(out));
                }
            }
            Err(ScmErr::reason("expected a list"))
        },
        Builtin::Car => {
            if args.len() > 0 {
                match as_quoted_list(&args[0]) {
                    Ok(l) => {
                        if l.len() > 0 {
                            return Ok(l[0].copy());
                        }
                        return Err(ScmErr::reason("expected a non-empty list"));
                    },
                    Err(_) => {},
                }
            }
            Err(ScmErr::reason("expected a list"))
        },
        Builtin::Cdr => {
            if args.len() > 0 {
                match as_quoted_list(&args[0]) {
                    Ok(l) => {
                        if l.len() > 0 {
                            let mut out: Vec<Expr> = Vec::new();
                            let mut i: usize = 1;
                            while i < l.len()
                                invariant
                                    1 <= i <= l@.len(),
                                    out@.len() == i - 1,
                                    forall|j: int| 0 <= j < i - 1 ==> val_of(#[trigger] out@[j]) == val_of(l@[j + 1]),
                                decreases l.len() - i,
                            {
                                out.push(l[i].copy());
                                i = i + 1;
                            }
                            proof {
                                lemma_val_of_list(out);
                                assert(vals_of(out@) =~= vals_of(l@).drop_first());
                            }
                            return Ok(Expr::Quote(Box::new(Expr::List(out))));
                        }
                        return Err(ScmErr::reason("expected a non-empty list"));
                    },
                    Err(quoted) => {
                        if quoted {
                            return Err(ScmErr::reason("expected a quoted list"));
                        }
                    },
                }
            }
            Err(ScmErr::reason("expected a list"))
        },
        Builtin::List => {
            let mut out: Vec<Expr> = Vec::new();
            let mut i: usize = 0;
            while i < args.len()
                invariant
                    i <= args@.len(),
                    out@.len() == i,
                    forall|j: int| 0 <= j < i ==> val_of(#[trigger] out@[j]) == val_of(args@[j]),
                decreases args.len() - i,
            {
                out.push(args[i].copy());
                i = i + 1;
            }
            proof {
                lemma_val_of_list(out);
                assert(vals_of(out@) =~= avs);
            }
            Ok(Expr::List(out))
        },
        Builtin::Flip => {
            if args.len() > 1 {
                if let Some(l) = as_list(&args[1]) {
                    let mut out: Vec<Expr> = Vec::new();
                    let mut i: usize = 0;
                    while i < l.len()
                        invariant
                            args@.len() > 1,
                            i <= l@.len(),
                            out@.len() == 2 * i,
                            forall|j: int| 0 <= j < 2 * i ==> val_of(#[trigger] out@[j]) == interleave(
                                val_of(args@[0]),
                                vals_of(l@),
                            )[j],
                        decreases l.len() - i,
                    {
                        out.push(args[0].copy());
                        out.push(l[i].copy());
                        proof {
                            assert((2 * i) % 2 == 0);
                            assert((2 * i + 1) % 2 == 1);
                            assert((2 * i + 1) / 2 == i);
                        }
                        i = i + 1;
                    }
                    proof {
                        lemma_val_of_list(out);
                        assert(vals_of(out@) =~= interleave(avs[0], vals_of(l@)));
                    }
                    return Ok(Expr::List(out));
                }
            }
            Err(ScmErr::reason("expected a list"))
        },
        Builtin::Reverse => {
            if args.len() > 0 {
                if let Some(l) = as_list(&args[0]) {
                    let mut out: Vec<Expr> = Vec::new();
                    let mut i: usize = l.len();
                    while i > 0
                        invariant
                            i <= l@.len(),
                            out@.len() == l@.len() - i,
                            forall|j: int| 0 <= j < l@.len() - i ==> val_of(#[trigger] out@[j]) == val_of(
                                l@[l@.len() - 1 - j],
                            ),
                        decreases i,
                    {
                        out.push(l[i - 1].copy());
                        i = i - 1;
                    }
                    proof {
                        lemma_val_of_list(out);
                        assert(vals_of(out@) =~= vals_of(l@).reverse());
                    }
                    return Ok(Expr::List(out));
                }
            }
            Err(ScmErr::reason("expected a list"))
        },
        _ => Err(ScmErr::Reason(String::new())),
    }
}

/// Every argument is a floating-point number.
pub open spec fn all_floating(a: Seq<Val>) -> bool {
    forall|i: int| 0 <= i < a.len() ==> (#[trigger] a[i]) is Floating
}

/// Every argument is a rational.
pub open spec fn all_rational(a: Seq<Val>) -> bool {
    forall|i: int| 0 <= i < a.len() ==> (#[trigger] a[i]) is Rational
}

/// Every argument is a rational or a floating-point number.
pub open spec fn all_rational_or_floating(a: Seq<Val>) -> bool {
    forall|i: int| 0 <= i < a.len() ==> (#[trigger] a[i]) is Rational || a[i] is Floating
}

/// Every argument is an integer.
pub open spec fn all_integral(a: Seq<Val>) -> bool {
    forall|i: int| 0 <= i < a.len() ==> (#[trigger] a[i]) is Integral
}

/// The rationals of arguments that are all rationals.
pub open spec fn rationals_of(a: Seq<Val>) -> Seq<Rational> {
    Seq::new(a.len(), |i: int| a[i]->Rational_0)
}

/// The integers of arguments that are all integers.
pub open spec fn integrals_of(a: Seq<Val>) -> Seq<int> {
    Seq::new(a.len(), |i: int| a[i]->Integral_0 as int)
}

/// The sum of `s`, added from the left.
pub open spec fn int_sum(s: Seq<int>) -> int
    decreases s.len(),
{
    if s.len() == 0 {
        0
    } else {
        int_sum(s.drop_last()) + s.last()
    }
}

/// Each partial sum of `s`, added from the left, fits in an `i128`.
pub open spec fn int_sum_ok(s: Seq<int>) -> bool
    decreases s.len(),
{
    if s.len() == 0 {
        true
    } else {
        int_sum_ok(s.drop_last()) && i128::MIN <= int_sum(s) <= i128::MAX
    }
}

/// What `+` does with its arguments short of floating point.
pub enum ExactSum {
    /// The sum of integers or of rationals, or the error `+` reports.
    Done(ScmResult<Expr>),
    /// Floating-point numbers take part: the sum is taken in floating point.
    Floating,
    /// An addition of the exact sum overflows.
    Overflow,
}

/// `+` on exact numbers. With no argument it fails. Where all the arguments
/// are rationals or floating-point numbers and some of them are floating-point
/// numbers, the sum is floating point and left to the caller. All rationals
/// are folded with `Rational`'s `+` from `0 / 1`, all integers summed from the
/// left; any other mix fails with "Expected number".
pub fn add_exact(args: &[Expr]) -> (r: ExactSum)
    ensures
        ({
            let a = vals_of(args@);
            if a.len() == 0 {
                r matches ExactSum::Done(Err(e)) && e.message() == "expected at least one number"@
            } else if all_rational_or_floating(a) && !all_rational(a) {
                r is Floating
            } else if all_rational(a) {
                if sum_ok(rationals_of(a)) {
                    r matches ExactSum::Done(Ok(e)) && e@ == Val::Rational(sum_spec(rationals_of(a)))
                } else {
                    r is Overflow
                }
            } else if all_integral(a) {
                if int_sum_ok(integrals_of(a)) {
                    r matches ExactSum::Done(Ok(e)) && e@ == Val::Integral(int_sum(integrals_of(a)) as i128)
                } else {
                    r is Overflow
                }
            } else {
                r matches ExactSum::Done(Err(e)) && e.message() == "Expected number"@
            }
        }),
{
    let ghost a = vals_of(args@);
    if args.len() == 0 {
        return ExactSum::Done(Err(ScmErr::reason("expected at least one number")));
    }
    let mut all_rf: bool = true;
    let mut all_rat: bool = true;
    let mut all_int: bool = true;
    let mut i: usize = 0;
    while i < args.len()
        invariant
            i <= args@.len(),
            a == vals_of(args@),
            all_rf == forall|j: int| 0 <= j < i ==> (#[trigger] a[j]) is Rational || a[j] is Floating,
            all_rat == forall|j: int| 0 <= j < i ==> (#[trigger] a[j]) is Rational,
            all_int == forall|j: int| 0 <= j < i ==> (#[trigger] a[j]) is Integral,
        decreases args.len() - i,
    {
        proof {
            assert(a[i as int] == val_of(args@[i as int]));
        }
        match &args[i] {
            Expr::Rational(_) => {
                all_int = false;
            },
            Expr::Floating(_) => {
                all_rat = false;
                all_int = false;
            },
            Expr::Integral(_) => {
                all_rf = false;
                all_rat = false;
            },
            _ => {
                all_rf = false;
                all_rat = false;
                all_int = false;
            },
        }
        i = i + 1;
    }
    if all_rf && !all_rat {
        return ExactSum::Floating;
    }
    if all_rat {
        let mut rs: Vec<Rational> = Vec::new();
        let mut k: usize = 0;
        while k < args.len()
            invariant
                k <= args@.len(),
                a == vals_of(args@),
                all_rational(a),
                rs@ == rationals_of(a).take(k as int),
            decreases args.len() - k,
        {
            proof {
                assert(a[k as int] == val_of(args@[k as int]));
                assert(a[k as int] is Rational);
            }
            match &args[k] {
                Expr::Rational(q) => {
                    rs.push(*q);
                },
                _ => {},
            }
            proof {
                assert(rs@ =~= rationals_of(a).take(k + 1));
            }
            k = k + 1;
        }
        proof {
            assert(rs@ =~= rationals_of(a));
        }
        return match Rational::checked_sum(rs.as_slice()) {
            Some(q) => ExactSum::Done(Ok(Expr::Rational(q))),
            None => ExactSum::Overflow,
        };
    }
    if all_int {
        let mut acc: i128 = 0;
        let mut k: usize = 0;
        proof {
            assert(integrals_of(a).take(0) =~= Seq::<int>::empty());
        }
        while k < args.len()
            invariant
                k <= args@.len(),
                a == vals_of(args@),
                all_integral(a),
                int_sum_ok(integrals_of(a).take(k as int)),
                acc == int_sum(integrals_of(a).take(k as int)),
            decreases args.len() - k,
        {
            proof {
                assert(a[k as int] == val_of(args@[k as int]));
                assert(a[k as int] is Integral);
                assert(integrals_of(a).take(k + 1).drop_last() =~= integrals_of(a).take(k as int));
            }
            let x: i128 = match &args[k] {
                Expr::Integral(x) => *x,
                _ => 0,
            };
            match acc.checked_add(x) {
                Some(s) => {
                    acc = s;
                },
                None => {
                    proof {
                        if int_sum_ok(integrals_of(a)) {
                            lemma_int_sum_ok_prefix(integrals_of(a), k + 1);
                        }
                    }
                    return ExactSum::Overflow;
                },
            }
            k = k + 1;
        }
        proof {
            assert(integrals_of(a).take(k as int) =~= integrals_of(a));
        }
        return ExactSum::Done(Ok(Expr::Integral(acc)));
    }
    ExactSum::Done(Err(ScmErr::reason("Expected number")))
}

/// An integer sum without overflow has no prefix whose sum overflows.
proof fn lemma_int_sum_ok_prefix(s: Seq<int>, k: int)
    requires
        int_sum_ok(s),
        0 <= k <= s.len(),
    ensures
        int_sum_ok(s.take(k)),
    decreases s.len() - k,
{
    if k < s.len() {
        lemma_int_sum_ok_prefix(s, k + 1);
        assert(s.take(k + 1).drop_last() =~= s.take(k));
    } else {
        assert(s.take(k) =~= s);
    }
}

/// Binds the name of `(define name form)`, which `check_define` has accepted,
/// to `value`, the value of `form`, and gives back the name as written. The
/// binding replaces one that evaluating `form` may have made.
pub fn define_bind(args: &[Expr], value: Expr, env: &mut Env) -> (r: ScmResult<Expr>)
    requires
        args@.len() == 2,
        args@[0]@ is Symbol,
    ensures
        final(env).ops@ == old(env).ops@.insert(args@[0]@->Symbol_0, value@),
        final(env).parent_scope == old(env).parent_scope,
        final(env).search_path == old(env).search_path,
        final(env).loaded_modules == old(env).loaded_modules,
        r matches Ok(e) && e@ == args@[0]@,
{
    let name = match &args[0] {
        Expr::Symbol(s) => s.clone(),
        _ => String::new(),
    };
    env.ops.insert(name, value);
    Ok(args[0].copy())
}

/// A name bound in a scope reads back as the value it was bound to, and
/// binding it changes what no other name reads back as.
pub proof fn lemma_lookup_after_bind(before: &Env, after: &Env, key: Seq<char>, value: Val)
    requires
        after.ops@ == before.ops@.insert(key, value),
        after.parent_scope == before.parent_scope,
    ensures
        resolve(after, key) == Some(value),
        forall|other: Seq<char>| other != key ==> resolve(after, other) == resolve(before, other),
{
}

/// In the scope of a call, a name bound by the call stands for its binding
/// there, and any other name for what it stands for in the scope around.
pub proof fn lemma_call_scope(call: &Env, outer: &Env, key: Seq<char>)
    requires
        call.parent_scope == Some(outer),
    ensures
        resolve(call, key) == if call.ops@.contains_key(key) {
            Some(call.ops@[key])
        } else {
            resolve(outer, key)
        },
{
}

/// Each special-form name picks its own form, and nothing else is a special form:
/// `define`, `if`, `lambda`, `require`, `eval`, `print-env`, `begin`, and
/// both `define-macro` and `defmacro` for macros.
pub proof fn lemma_special_form_names(head: Val)
    ensures
        special_form_spec(head) == Some(SpecialForm::Define) <==> head == Val::Symbol("define"@),
        special_form_spec(head) == Some(SpecialForm::If) <==> head == Val::Symbol("if"@),
        special_form_spec(head) == Some(SpecialForm::Lambda) <==> head == Val::Symbol("lambda"@),
        special_form_spec(head) == Some(SpecialForm::Require) <==> head == Val::Symbol("require"@),
        special_form_spec(head) == Some(SpecialForm::Eval) <==> head == Val::Symbol("eval"@),
        special_form_spec(head) == Some(SpecialForm::PrintEnv) <==> head == Val::Symbol("print-env"@),
        special_form_spec(head) == Some(SpecialForm::DefMacro) <==> (head == Val::Symbol("define-macro"@)
            || head == Val::Symbol("defmacro"@)),
        special_form_spec(head) == Some(SpecialForm::Begin) <==> head == Val::Symbol("begin"@),
{
    reveal_strlit("define");
    reveal_strlit("if");
    reveal_strlit("lambda");
    reveal_strlit("require");
    reveal_strlit("eval");
    reveal_strlit("print-env");
    reveal_strlit("define-macro");
    reveal_strlit("defmacro");
    reveal_strlit("begin");
    let names = seq!["define"@, "if"@, "lambda"@, "require"@, "eval"@, "print-env"@, "define-macro"@, "defmacro"@, "begin"@];
    assert forall|a: int, b: int| 0 <= a < 9 && 0 <= b < 9 && a != b implies #[trigger] names[a] != #[trigger] names[b] by {
        if names[a].len() == names[b].len() {
            assert(names[a][0] != names[b][0] || names[a][1] != names[b][1] || names[a][2] != names[b][2]
                || names[a][3] != names[b][3]);
        }
    }
    assert(names[0] != names[1] && names[0] != names[2] && names[0] != names[3] && names[0] != names[4]
        && names[0] != names[5] && names[0] != names[6] && names[0] != names[7] && names[0] != names[8]);
    assert(names[1] != names[2] && names[1] != names[3] && names[1] != names[4] && names[1] != names[5]
        && names[1] != names[6] && names[1] != names[7] && names[1] != names[8]);
    assert(names[2] != names[3] && names[2] != names[4] && names[2] != names[5] && names[2] != names[6]
        && names[2] != names[7] && names[2] != names[8]);
    assert(names[3] != names[4] && names[3] != names[5] && names[3] != names[6] && names[3] != names[7]
        && names[3] != names[8]);
    assert(names[4] != names[5] && names[4] != names[6] && names[4] != names[7] && names[4] != names[8]);
    assert(names[5] != names[6] && names[5] != names[7] && names[5] != names[8]);
    assert(names[6] != names[7] && names[6] != names[8] && names[7] != names[8]);
}

/// What `car` and `cdr` take from a quoted list that `cons` built: the
/// element put in front, and the quoted rest, which is the empty list where
/// the list had one element.
pub proof fn lemma_cons_car_cdr(v: Val, l: Seq<Val>)
    ensures
        list_builtin_spec(Builtin::Cons, seq![v, Val::List(l)]) matches Ok(c) && {
            &&& c matches Val::List(cl) && cl.len() == l.len() + 1
            &&& list_builtin_spec(Builtin::Car, seq![Val::Quote(Box::new(c))]) == Ok::<Val, Seq<char>>(v)
            &&& list_builtin_spec(Builtin::Cdr, seq![Val::Quote(Box::new(c))]) == Ok::<Val, Seq<char>>(
                Val::Quote(Box::new(Val::List(l))),
            )
        },
{
    assert((seq![v] + l).drop_first() =~= l);
}

/// The sum of integers is their arithmetic sum: one integer sums to itself,
/// sums of joined sequences add up, and negating every integer negates the sum.
pub proof fn lemma_int_sum_laws(s: Seq<int>, t: Seq<int>, x: int)
    ensures
        int_sum(seq![x]) == x,
        int_sum(s.push(x)) == int_sum(s) + x,
        int_sum(s + t) == int_sum(s) + int_sum(t),
        int_sum(s.map_values(|v: int| -v)) == -int_sum(s),
    decreases t.len(),
{
    assert(seq![x].drop_last() =~= Seq::<int>::empty());
    assert(int_sum(Seq::<int>::empty()) == 0);
    assert(int_sum(seq![x]) == int_sum(seq![x].drop_last()) + seq![x].last());
    assert(s.push(x).drop_last() =~= s);
    if t.len() == 0 {
        assert(s + t =~= s);
    } else {
        lemma_int_sum_laws(s, t.drop_last(), x);
        assert((s + t).drop_last() =~= s + t.drop_last());
    }
    lemma_int_sum_neg(s);
}

/// Negating every integer negates the sum.
proof fn lemma_int_sum_neg(s: Seq<int>)
    ensures
        int_sum(s.map_values(|v: int| -v)) == -int_sum(s),
    decreases s.len(),
{
    if s.len() > 0 {
        lemma_int_sum_neg(s.drop_last());
        assert(s.map_values(|v: int| -v).drop_last() =~= s.drop_last().map_values(|v: int| -v));
    }
}

/// A procedure's parameter names come in the order they are written, one for
/// each parameter; with distinct names and one argument per parameter, the
/// call binds the `i`-th parameter to the `i`-th argument.
pub proof fn lemma_lambda_binds_in_order(l: Seq<Val>, values: Seq<Val>)
    requires
        forall|i: int| 0 <= i < l.len() ==> (#[trigger] l[i]) is Symbol,
        forall|i: int, j: int| 0 <= i < l.len() && 0 <= j < l.len() && i != j ==> (#[trigger] l[i])->Symbol_0
            != (#[trigger] l[j])->Symbol_0,
        values.len() == l.len(),
    ensures
        lambda_params_spec(Val::List(l), values.len()) matches Ok(names) && {
            &&& names.len() == l.len()
            &&& forall|i: int| 0 <= i < l.len() ==> Val::Symbol(#[trigger] names[i]) == l[i]
            &&& forall|i: int| 0 <= i < l.len() ==> #[trigger] bind_all(names, values).contains_key(l[i]->Symbol_0)
                && bind_all(names, values)[l[i]->Symbol_0] == values[i]
        },
{
    let names = Seq::new(l.len(), |i: int| l[i]->Symbol_0);
    assert(symbols_of(Val::List(l)) == Ok::<Seq<Seq<char>>, Seq<char>>(names));
    assert forall|i: int| 0 <= i < l.len() implies Val::Symbol(#[trigger] names[i]) == l[i] by {
        assert(l[i] is Symbol);
    }
    assert(lambda_params_spec(Val::List(l), values.len()) == Ok::<Seq<Seq<char>>, Seq<char>>(names));
    assert forall|i: int, j: int| 0 <= i < names.len() && 0 <= j < names.len() && i != j implies #[trigger] names[i]
        != #[trigger] names[j] by {
        assert(l[i]->Symbol_0 != l[j]->Symbol_0);
    }
    lemma_bind_all_distinct(names, values);
    assert forall|i: int| 0 <= i < l.len() implies #[trigger] bind_all(names, values).contains_key(l[i]->Symbol_0)
        && bind_all(names, values)[l[i]->Symbol_0] == values[i] by {
        assert(names[i] == l[i]->Symbol_0);
    }
}

/// Whenever a call's parameters are accepted, there is one name per argument,
/// and the names are the parameter list's symbols in the order written.
pub proof fn lemma_lambda_params_order(params: Val, arg_count: nat)
    ensures
        lambda_params_spec(params, arg_count) matches Ok(names) ==> {
            &&& names.len() == arg_count
            &&& params matches Val::List(l) && l.len() == arg_count
                && forall|i: int| 0 <= i < l.len() ==> Val::Symbol(#[trigger] names[i]) == l[i]
        },
{
    if let Ok(names) = lambda_params_spec(params, arg_count) {
        if let Val::List(l) = params {
            assert forall|i: int| 0 <= i < l.len() implies Val::Symbol(#[trigger] names[i]) == l[i] by {
                assert(l[i] is Symbol);
            }
        }
    }
}

/// `define` binds a name only where the scope does not bind it yet: a
/// well-formed `(define name form)` is refused exactly when `name` is bound.
pub proof fn lemma_define_refuses_bound_names(name: Seq<char>, form: Val, ops: Map<Seq<char>, Val>)
    ensures
        define_check(seq![Val::Symbol(name), form], ops) is Err <==> ops.contains_key(name),
        !ops.contains_key(name) ==> define_check(seq![Val::Symbol(name), form], ops)
            == Ok::<Seq<char>, Seq<char>>(name),
{
}

/// `empty?` holds of the empty list and of no list that `cons` built.
pub proof fn lemma_empty_cons(v: Val, l: Seq<Val>)
    ensures
        list_builtin_spec(Builtin::IsEmpty, seq![Val::List(Seq::empty())]) == Ok::<Val, Seq<char>>(Val::Bool(true)),
        list_builtin_spec(Builtin::Cons, seq![v, Val::List(l)]) matches Ok(c) && list_builtin_spec(
            Builtin::IsEmpty,
            seq![c],
        ) == Ok::<Val, Seq<char>>(Val::Bool(false)),
{
}

/// With distinct names and as many values, each name is bound to its value.
proof fn lemma_bind_all_distinct(names: Seq<Seq<char>>, values: Seq<Val>)
    requires
        names.len() == values.len(),
        forall|i: int, j: int| 0 <= i < names.len() && 0 <= j < names.len() && i != j ==> #[trigger] names[i]
            != #[trigger] names[j],
    ensures
        forall|i: int| 0 <= i < names.len() ==> #[trigger] bind_all(names, values).contains_key(names[i])
            && bind_all(names, values)[names[i]] == values[i],
    decreases names.len(),
{
    if names.len() > 0 {
        let n = names.len() - 1;
        let ns = names.take(n);
        let vs = values.take(n);
        assert forall|i: int, j: int| 0 <= i < ns.len() && 0 <= j < ns.len() && i != j implies #[trigger] ns[i]
            != #[trigger] ns[j] by {
            assert(ns[i] == names[i] && ns[j] == names[j]);
        }
        lemma_bind_all_distinct(ns, vs);
        assert(bind_all(names, values) == bind_all(ns, vs).insert(names[n], values[n]));
        assert forall|i: int| 0 <= i < names.len() implies #[trigger] bind_all(names, values).contains_key(names[i])
            && bind_all(names, values)[names[i]] == values[i] by {
            if i < n {
                assert(ns[i] == names[i]);
                assert(vs[i] == values[i]);
                assert(names[i] != names[n]);
            }
        }
    }
}

/// Reversing a list twice gives the list back.
pub proof fn lemma_reverse_twice(l: Seq<Val>)
    ensures
        list_builtin_spec(Builtin::Reverse, seq![Val::List(l)]) matches Ok(once) && list_builtin_spec(
            Builtin::Reverse,
            seq![once],
        ) == Ok::<Val, Seq<char>>(Val::List(l)),
{
    assert(l.reverse().reverse() =~= l);
}

} // verus!
