//! The primitives of the language and the root environment that names them.

use vstd::prelude::*;
use vstd::string::StringExecFns;
use crate::env::{lemma_normalize_fixed, unique_names, Bindings, LispEnv};
use crate::eval::{agrees, names_of, EvalError, Host};
use crate::parse::parse_string;
use crate::semantics::{
    include_form,
    lemma_eval_forms_len,
    lemma_integers_len,
    lemma_symbols_len,
    library_path,
    script_path,
    script_result,
    spec_builtin,
    wrapping_sum,
};
use crate::value::{
    bindings_model,
    clone_values,
    terms,
    Builtin,
    LambdaValue,
    MacroValue,
    Term,
    Value,
};

verus! {

/// The sum of a sequence of integers in two's complement arithmetic.
pub fn wrapping_total(xs: &[i64]) -> (r: i64)
    ensures
        r == wrapping_sum(xs@),
{
    let mut acc: i64 = 0;
    let mut i: usize = 0;
    while i < xs.len()
        invariant
            i <= xs.len(),
            acc == wrapping_sum(xs@.take(i as int)),
        decreases xs.len() - i,
    {
        assert(xs@.take(i + 1).drop_last() =~= xs@.take(i as int));
        acc = acc.wrapping_add(xs[i]);
        i += 1;
    }
    assert(xs@.take(xs.len() as int) =~= xs@);
    acc
}

/// The path of the file that `readf` reads for one, two or three names.
pub fn library_path_of(names: &[String]) -> (r: String)
    requires
        1 <= names.len() <= 3,
    ensures
        r@ == library_path(names_of(names@)),
{
    if names.len() == 1 {
        let mut path = String::from_str("lisb/");
        path.append(names[0].as_str());
        path.append(".l");
        path
    } else if names.len() == 2 {
        let mut path = String::from_str("lisb/");
        path.append(names[0].as_str());
        path.append(".");
        path.append(names[1].as_str());
        path
    } else {
        let mut path = names[0].clone();
        path.append("/");
        path.append(names[1].as_str());
        path.append(".");
        path.append(names[2].as_str());
        path
    }
}

/// The path of the script that `lua` runs for a name.
pub fn get_lua_lib_filename(name: &String) -> (r: String)
    ensures
        r@ == script_path(name@),
{
    let mut path = String::from_str("src/");
    path.append(name.as_str());
    path.append(".lua");
    path
}

/// What `lua` gives for the exit status of a script.
pub fn script_result_of(status: Option<i32>) -> (r: Value)
    ensures
        r@ == script_result(status),
{
    let first = match status {
        Some(code) => Value::Integer(code as i64),
        None => Value::nil(),
    };
    let mut items: Vec<Value> = Vec::new();
    items.push(first);
    items.push(Value::Symbol("unimplemented".to_string()));
    let r = Value::List(items);
    proof {
        r.lemma_model();
        assert(terms(items@) =~= script_result(status)->List_0);
    }
    r
}

/// The form `(let (readf library) body)`.
pub fn include_form_of(library: &Value, body: &Value) -> (r: Value)
    ensures
        r@ == include_form(library@, body@),
{
    let mut read: Vec<Value> = Vec::new();
    read.push(Value::Symbol("readf".to_string()));
    read.push(library.clone());
    let read = Value::List(read);
    let mut items: Vec<Value> = Vec::new();
    items.push(Value::Symbol("let".to_string()));
    items.push(read);
    items.push(body.clone());
    let r = Value::List(items);
    proof {
        r.lemma_model();
        read.lemma_model();
        assert(terms(read->List_0@) =~= seq![Term::Symbol("readf"@), library@]);
        assert(terms(items@) =~= include_form(library@, body@)->List_0);
    }
    r
}

/// What the primitive `b` gives for its argument forms in `env`.
pub fn apply_builtin(b: Builtin, args: &[Value], env: &LispEnv, host: &Host, depth: usize) -> (r:
    Result<Value, EvalError>)
    ensures
        agrees(r, spec_builtin(b, terms(args@), env@, host@, depth as nat)),
    decreases depth, 4nat, 0nat,
{
    match b {
        Builtin::Cons => builtin_cons(args, env, host, depth),
        Builtin::Car => builtin_car(args, env, host, depth),
        Builtin::Cdr => builtin_cdr(args, env, host, depth),
        Builtin::Quote => builtin_quote(args, env, host, depth),
        Builtin::Eq => builtin_eq(args, env, host, depth),
        Builtin::Macro => builtin_macro(args, env, host, depth),
        Builtin::Fn => builtin_fn(args, env, host, depth),
        Builtin::If => builtin_if(args, env, host, depth),
        Builtin::Atom => builtin_atom(args, env, host, depth),
        Builtin::Lt => builtin_lt(args, env, host, depth),
        Builtin::Gt => builtin_gt(args, env, host, depth),
        Builtin::Add => builtin_add(args, env, host, depth),
        Builtin::Sub => builtin_sub(args, env, host, depth),
        Builtin::List => builtin_list(args, env, host, depth),
        Builtin::Let => builtin_let(args, env, host, depth),
        Builtin::Eval => builtin_eval(args, env, host, depth),
        Builtin::Unsafe => builtin_unsafe(args, env, host, depth),
        Builtin::SpookyAdd => builtin_spooky_add(args, env, host, depth),
        Builtin::Lua => run_lua_file_from_lisp_args(args, env, host, depth),
        Builtin::Readf => builtin_readf(args, env, host, depth),
        Builtin::Include => builtin_include(args, env, host, depth),
    }
}

/// `(cons head tail)`: both are evaluated; the tail must be a list.
pub fn builtin_cons(args: &[Value], env: &LispEnv, host: &Host, depth: usize) -> (r: Result<
    Value,
    EvalError,
>)
    ensures
        agrees(r, spec_builtin(Builtin::Cons, terms(args@), env@, host@, depth as nat)),
    decreases depth, 3nat, 0nat,
{
    if args.len() != 2 {
        return Err(EvalError::ArityMismatch);
    }
    proof {
        lemma_eval_forms_len(terms(args@), Seq::empty(), env@, host@, depth as nat);
    }
    match env.eval_forms(args, host, depth) {
        Err(e) => Err(e),
        Ok(vs) => match Value::cons(&vs[0], &vs[1]) {
            Some(v) => Ok(v),
            None => Err(EvalError::TypeMismatch),
        },
    }
}

/// `(car list)`: the first item of a list, nil for the empty list.
pub fn builtin_car(args: &[Value], env: &LispEnv, host: &Host, depth: usize) -> (r: Result<
    Value,
    EvalError,
>)
    ensures
        agrees(r, spec_builtin(Builtin::Car, terms(args@), env@, host@, depth as nat)),
    decreases depth, 3nat, 0nat,
{
    if args.len() != 1 {
        return Err(EvalError::ArityMismatch);
    }
    match env.eval(&args[0], host, depth) {
        Err(e) => Err(e),
        Ok(v) => match v.head() {
            Some(first) => Ok(first),
            None => Err(EvalError::TypeMismatch),
        },
    }
}

/// `(cdr list)`: a list without its first item, nil for the empty list.
pub fn builtin_cdr(args: &[Value], env: &LispEnv, host: &Host, depth: usize) -> (r: Result<
    Value,
    EvalError,
>)
    ensures
        agrees(r, spec_builtin(Builtin::Cdr, terms(args@), env@, host@, depth as nat)),
    decreases depth, 3nat, 0nat,
{
    if args.len() != 1 {
        return Err(EvalError::ArityMismatch);
    }
    match env.eval(&args[0], host, depth) {
        Err(e) => Err(e),
        Ok(v) => match v.tail() {
            Some(rest) => Ok(rest),
            None => Err(EvalError::TypeMismatch),
        },
    }
}

/// `(quote form)`: the form as it is written.
pub fn builtin_quote(args: &[Value], env: &LispEnv, host: &Host, depth: usize) -> (r: Result<
    Value,
    EvalError,
>)
    ensures
        agrees(r, spec_builtin(Builtin::Quote, terms(args@), env@, host@, depth as nat)),
{
    if args.len() != 1 {
        return Err(EvalError::ArityMismatch);
    }
    Ok(args[0].clone())
}

/// `(eq a b)`: whether the values of `a` and `b` are structurally equal.
pub fn builtin_eq(args: &[Value], env: &LispEnv, host: &Host, depth: usize) -> (r: Result<
    Value,
    EvalError,
>)
    ensures
        agrees(r, spec_builtin(Builtin::Eq, terms(args@), env@, host@, depth as nat)),
    decreases depth, 3nat, 0nat,
{
    if args.len() != 2 {
        return Err(EvalError::ArityMismatch);
    }
    proof {
        lemma_eval_forms_len(terms(args@), Seq::empty(), env@, host@, depth as nat);
    }
    match env.eval_forms(args, host, depth) {
        Err(e) => Err(e),
        Ok(vs) => Ok(Value::Bool(vs[0] == vs[1])),
    }
}

/// `(macro (params...) body)`: a macro; nothing is evaluated.
pub fn builtin_macro(args: &[Value], env: &LispEnv, host: &Host, depth: usize) -> (r: Result<
    Value,
    EvalError,
>)
    ensures
        agrees(r, spec_builtin(Builtin::Macro, terms(args@), env@, host@, depth as nat)),
{
    if args.len() != 2 {
        return Err(EvalError::ArityMismatch);
    }
    if !args[0].is_list_of_symbols() {
        return Err(EvalError::TypeMismatch);
    }
    match args[0].get_list() {
        Some(params) => {
            let r = Value::Macro(
                MacroValue::new(clone_values(params), Box::new(args[1].clone())),
            );
            proof {
                r.lemma_model();
            }
            Ok(r)
        },
        None => Err(EvalError::TypeMismatch),
    }
}

/// `(fn (params...) body)`: a closure over every binding visible here.
pub fn builtin_fn(args: &[Value], env: &LispEnv, host: &Host, depth: usize) -> (r: Result<
    Value,
    EvalError,
>)
    ensures
        agrees(r, spec_builtin(Builtin::Fn, terms(args@), env@, host@, depth as nat)),
{
    if args.len() != 2 {
        return Err(EvalError::ArityMismatch);
    }
    if !args[0].is_list_of_symbols() {
        return Err(EvalError::TypeMismatch);
    }
    let r = Value::Lambda(
        LambdaValue::new(Box::new(args[0].clone()), Box::new(args[1].clone()), env.flatten()),
    );
    proof {
        r.lemma_model();
    }
    Ok(r)
}

/// `(if condition then else)`: the condition must give a boolean; exactly
/// one branch is evaluated.
pub fn builtin_if(args: &[Value], env: &LispEnv, host: &Host, depth: usize) -> (r: Result<
    Value,
    EvalError,
>)
    ensures
        agrees(r, spec_builtin(Builtin::If, terms(args@), env@, host@, depth as nat)),
    decreases depth, 3nat, 0nat,
{
    if args.len() != 3 {
        return Err(EvalError::ArityMismatch);
    }
    match env.eval(&args[0], host, depth) {
        Err(e) => Err(e),
        Ok(c) => match c {
            Value::Bool(yes) => {
                if yes {
                    env.eval(&args[1], host, depth)
                } else {
                    env.eval(&args[2], host, depth)
                }
            },
            _ => Err(EvalError::TypeMismatch),
        },
    }
}

/// `(atom form)`: whether the value of the form is an atom.
pub fn builtin_atom(args: &[Value], env: &LispEnv, host: &Host, depth: usize) -> (r: Result<
    Value,
    EvalError,
>)
    ensures
        agrees(r, spec_builtin(Builtin::Atom, terms(args@), env@, host@, depth as nat)),
    decreases depth, 3nat, 0nat,
{
    if args.len() != 1 {
        return Err(EvalError::ArityMismatch);
    }
    match env.eval(&args[0], host, depth) {
        Err(e) => Err(e),
        Ok(v) => Ok(Value::Bool(v.is_atom())),
    }
}

/// `(lt a b)`: whether the integer `a` is less than the integer `b`.
pub fn builtin_lt(args: &[Value], env: &LispEnv, host: &Host, depth: usize) -> (r: Result<
    Value,
    EvalError,
>)
    ensures
        agrees(r, spec_builtin(Builtin::Lt, terms(args@), env@, host@, depth as nat)),
    decreases depth, 3nat, 0nat,
{
    if args.len() != 2 {
        return Err(EvalError::ArityMismatch);
    }
    proof {
        lemma_integers_len(terms(args@), Seq::empty(), env@, host@, depth as nat);
    }
    match env.eval_integers(args, host, depth) {
        Err(e) => Err(e),
        Ok(xs) => Ok(Value::Bool(xs[0] < xs[1])),
    }
}

/// `(gt a b)`: whether the integer `a` is greater than the integer `b`.
pub fn builtin_gt(args: &[Value], env: &LispEnv, host: &Host, depth: usize) -> (r: Result<
    Value,
    EvalError,
>)
    ensures
        agrees(r, spec_builtin(Builtin::Gt, terms(args@), env@, host@, depth as nat)),
    decreases depth, 3nat, 0nat,
{
    if args.len() != 2 {
        return Err(EvalError::ArityMismatch);
    }
    proof {
        lemma_integers_len(terms(args@), Seq::empty(), env@, host@, depth as nat);
    }
    match env.eval_integers(args, host, depth) {
        Err(e) => Err(e),
        Ok(xs) => Ok(Value::Bool(xs[0] > xs[1])),
    }
}

/// `(add a ...)`: the sum of any number of integers, wrapping on overflow.
pub fn builtin_add(args: &[Value], env: &LispEnv, host: &Host, depth: usize) -> (r: Result<
    Value,
    EvalError,
>)
    ensures
        agrees(r, spec_builtin(Builtin::Add, terms(args@), env@, host@, depth as nat)),
    decreases depth, 3nat, 0nat,
{
    match env.eval_integers(args, host, depth) {
        Err(e) => Err(e),
        Ok(xs) => Ok(Value::Integer(wrapping_total(xs.as_slice()))),
    }
}

/// `(sub a b)`: the difference of two integers, wrapping on overflow.
pub fn builtin_sub(args: &[Value], env: &LispEnv, host: &Host, depth: usize) -> (r: Result<
    Value,
    EvalError,
>)
    ensures
        agrees(r, spec_builtin(Builtin::Sub, terms(args@), env@, host@, depth as nat)),
    decreases depth, 3nat, 0nat,
{
    if args.len() != 2 {
        return Err(EvalError::ArityMismatch);
    }
    proof {
        lemma_integers_len(terms(args@), Seq::empty(), env@, host@, depth as nat);
    }
    match env.eval_integers(args, host, depth) {
        Err(e) => Err(e),
        Ok(xs) => Ok(Value::Integer(xs[0].wrapping_sub(xs[1]))),
    }
}

/// `(list a ...)`: the list of the values of the forms.
pub fn builtin_list(args: &[Value], env: &LispEnv, host: &Host, depth: usize) -> (r: Result<
    Value,
    EvalError,
>)
    ensures
        agrees(r, spec_builtin(Builtin::List, terms(args@), env@, host@, depth as nat)),
    decreases depth, 3nat, 0nat,
{
    match env.eval_forms(args, host, depth) {
        Err(e) => Err(e),
        Ok(vs) => {
            let r = Value::List(vs);
            proof {
                r.lemma_model();
            }
            Ok(r)
        },
    }
}

/// `(let pairs body)`: `pairs` is evaluated and must give a list of
/// `(name value)` pairs; each value is evaluated here, and the body is
/// evaluated in a child frame that binds the names.
pub fn builtin_let(args: &[Value], env: &LispEnv, host: &Host, depth: usize) -> (r: Result<
    Value,
    EvalError,
>)
    ensures
        agrees(r, spec_builtin(Builtin::Let, terms(args@), env@, host@, depth as nat)),
    decreases depth, 3nat, 0nat,
{
    if args.len() != 2 {
        return Err(EvalError::ArityMismatch);
    }
    match env.eval(&args[0], host, depth) {
        Err(e) => Err(e),
        Ok(pairs) => match env.pairs_frame(&pairs, host, depth) {
            Err(e) => Err(e),
            Ok(frame) => {
                let inner = env.new_inner_from_parts(frame, 0);
                inner.eval(&args[1], host, depth)
            },
        },
    }
}

/// `(eval form)`: the value of the value of the form.
pub fn builtin_eval(args: &[Value], env: &LispEnv, host: &Host, depth: usize) -> (r: Result<
    Value,
    EvalError,
>)
    ensures
        agrees(r, spec_builtin(Builtin::Eval, terms(args@), env@, host@, depth as nat)),
    decreases depth, 3nat, 0nat,
{
    if args.len() != 1 {
        return Err(EvalError::ArityMismatch);
    }
    match env.eval(&args[0], host, depth) {
        Err(e) => Err(e),
        Ok(form) => env.eval(&form, host, depth),
    }
}

/// `(unsafe form)`: the value of the form at a privilege level one higher.
pub fn builtin_unsafe(args: &[Value], env: &LispEnv, host: &Host, depth: usize) -> (r: Result<
    Value,
    EvalError,
>)
    ensures
        agrees(r, spec_builtin(Builtin::Unsafe, terms(args@), env@, host@, depth as nat)),
    decreases depth, 3nat, 0nat,
{
    if args.len() != 1 {
        return Err(EvalError::ArityMismatch);
    }
    let inner = env.new_unsafer_env();
    inner.eval(&args[0], host, depth)
}

/// `(spookyAdd a b)`: the sum of two integers, as a privileged primitive.
pub fn builtin_spooky_add(args: &[Value], env: &LispEnv, host: &Host, depth: usize) -> (r: Result<
    Value,
    EvalError,
>)
    ensures
        agrees(r, spec_builtin(Builtin::SpookyAdd, terms(args@), env@, host@, depth as nat)),
    decreases depth, 3nat, 0nat,
{
    if args.len() != 2 {
        return Err(EvalError::ArityMismatch);
    }
    proof {
        lemma_integers_len(terms(args@), Seq::empty(), env@, host@, depth as nat);
    }
    match env.eval_integers(args, host, depth) {
        Err(e) => Err(e),
        Ok(xs) => Ok(Value::Integer(xs[0].wrapping_add(xs[1]))),
    }
}

/// `(lua name)`: the exit status of the script of that name, as the host
/// record holds it.
pub fn run_lua_file_from_lisp_args(args: &[Value], env: &LispEnv, host: &Host, depth: usize) -> (r: Result<
    Value,
    EvalError,
>)
    ensures
        agrees(r, spec_builtin(Builtin::Lua, terms(args@), env@, host@, depth as nat)),
    decreases depth, 3nat, 0nat,
{
    if args.len() != 1 {
        return Err(EvalError::ArityMismatch);
    }
    proof {
        lemma_symbols_len(terms(args@), Seq::empty(), env@, host@, depth as nat);
    }
    match env.eval_symbols(args, host, depth) {
        Err(e) => Err(e),
        Ok(names) => {
            let path = get_lua_lib_filename(&names[0]);
            match host.script(&path) {
                Some(status) => Ok(script_result_of(status)),
                None => Err(EvalError::NeedsScript(path)),
            }
        },
    }
}

/// `(readf name ...)`: the expression that the file named by one, two or
/// three symbols starts with, parsed and not evaluated.
pub fn builtin_readf(args: &[Value], env: &LispEnv, host: &Host, depth: usize) -> (r: Result<
    Value,
    EvalError,
>)
    ensures
        agrees(r, spec_builtin(Builtin::Readf, terms(args@), env@, host@, depth as nat)),
    decreases depth, 3nat, 0nat,
{
    if args.len() < 1 || args.len() > 3 {
        return Err(EvalError::ArityMismatch);
    }
    proof {
        lemma_symbols_len(terms(args@), Seq::empty(), env@, host@, depth as nat);
    }
    match env.eval_symbols(args, host, depth) {
        Err(e) => Err(e),
        Ok(names) => {
            let path = library_path_of(names.as_slice());
            match host.file(&path) {
                Some(text) => match parse_string(text.as_str()) {
                    Ok(v) => Ok(v),
                    Err(e) => Err(EvalError::Syntax(e)),
                },
                None => Err(EvalError::NeedsFile(path)),
            }
        },
    }
}

/// `(include library body)`: the value of `(let (readf library) body)`.
pub fn builtin_include(args: &[Value], env: &LispEnv, host: &Host, depth: usize) -> (r: Result<
    Value,
    EvalError,
>)
    ensures
        agrees(r, spec_builtin(Builtin::Include, terms(args@), env@, host@, depth as nat)),
    decreases depth, 3nat, 0nat,
{
    if args.len() != 2 {
        return Err(EvalError::ArityMismatch);
    }
    let form = include_form_of(&args[0], &args[1]);
    env.eval(&form, host, depth)
}

/// The bindings of the root environment: the constants `exit`, `false` and
/// `true`, and the name of every primitive. The primitives that reach outside
/// the evaluator are privileged.
pub open spec fn default_bindings() -> Seq<(Seq<char>, Term)> {
    seq![
        ("exit"@, Term::Symbol("exit"@)),
        ("false"@, Term::Bool(false)),
        ("true"@, Term::Bool(true)),
        ("cons"@, Term::Func(Builtin::Cons)),
        ("car"@, Term::Func(Builtin::Car)),
        ("cdr"@, Term::Func(Builtin::Cdr)),
        ("quote"@, Term::Func(Builtin::Quote)),
        ("eq"@, Term::Func(Builtin::Eq)),
        ("macro"@, Term::Func(Builtin::Macro)),
        ("fn"@, Term::Func(Builtin::Fn)),
        ("if"@, Term::Func(Builtin::If)),
        ("atom"@, Term::Func(Builtin::Atom)),
        ("lt"@, Term::Func(Builtin::Lt)),
        ("gt"@, Term::Func(Builtin::Gt)),
        ("add"@, Term::Func(Builtin::Add)),
        ("sub"@, Term::Func(Builtin::Sub)),
        ("list"@, Term::Func(Builtin::List)),
        ("let"@, Term::Func(Builtin::Let)),
        ("eval"@, Term::Func(Builtin::Eval)),
        ("unsafe"@, Term::Func(Builtin::Unsafe)),
        ("spookyAdd"@, Term::UnsafeFunc(Builtin::SpookyAdd)),
        ("lua"@, Term::UnsafeFunc(Builtin::Lua)),
        ("readf"@, Term::UnsafeFunc(Builtin::Readf)),
        ("include"@, Term::UnsafeFunc(Builtin::Include)),
    ]
}

/// No name stands twice in [`default_bindings`].
pub proof fn lemma_default_bindings_unique()
    ensures
        unique_names(default_bindings()),
{
    reveal_strlit("exit");
    reveal_strlit("false");
    reveal_strlit("true");
    reveal_strlit("cons");
    reveal_strlit("car");
    reveal_strlit("cdr");
    reveal_strlit("quote");
    reveal_strlit("eq");
    reveal_strlit("macro");
    reveal_strlit("fn");
    reveal_strlit("if");
    reveal_strlit("atom");
    reveal_strlit("lt");
    reveal_strlit("gt");
    reveal_strlit("add");
    reveal_strlit("sub");
    reveal_strlit("list");
    reveal_strlit("let");
    reveal_strlit("eval");
    reveal_strlit("unsafe");
    reveal_strlit("spookyAdd");
    reveal_strlit("lua");
    reveal_strlit("readf");
    reveal_strlit("include");
    let names = default_bindings();
    assert forall|i: int, j: int| 0 <= i < j < names.len() implies (#[trigger] names[i]).0 != (
    #[trigger] names[j]).0 by {
        assert(names[i].0.len() != names[j].0.len() || names[i].0[0] != names[j].0[0]
            || names[i].0[1] != names[j].0[1] || names[i].0[2] != names[j].0[2]);
    }
}

/// The root environment: [`default_bindings`] at privilege level zero.
pub fn default_env() -> (r: LispEnv<'static>)
    ensures
        r.own() == default_bindings(),
        r@.bindings == default_bindings(),
        r@.unsafe_level == 0,
{
    let mut bindings: Bindings = Vec::new();
    bindings.push(("exit".to_string(), Value::Symbol("exit".to_string())));
    bindings.push(("false".to_string(), Value::Bool(false)));
    bindings.push(("true".to_string(), Value::Bool(true)));
    bindings.push(("cons".to_string(), Value::Func(Builtin::Cons)));
    bindings.push(("car".to_string(), Value::Func(Builtin::Car)));
    bindings.push(("cdr".to_string(), Value::Func(Builtin::Cdr)));
    bindings.push(("quote".to_string(), Value::Func(Builtin::Quote)));
    bindings.push(("eq".to_string(), Value::Func(Builtin::Eq)));
    bindings.push(("macro".to_string(), Value::Func(Builtin::Macro)));
    bindings.push(("fn".to_string(), Value::Func(Builtin::Fn)));
    bindings.push(("if".to_string(), Value::Func(Builtin::If)));
    bindings.push(("atom".to_string(), Value::Func(Builtin::Atom)));
    bindings.push(("lt".to_string(), Value::Func(Builtin::Lt)));
    bindings.push(("gt".to_string(), Value::Func(Builtin::Gt)));
    bindings.push(("add".to_string(), Value::Func(Builtin::Add)));
    bindings.push(("sub".to_string(), Value::Func(Builtin::Sub)));
    bindings.push(("list".to_string(), Value::Func(Builtin::List)));
    bindings.push(("let".to_string(), Value::Func(Builtin::Let)));
    bindings.push(("eval".to_string(), Value::Func(Builtin::Eval)));
    bindings.push(("unsafe".to_string(), Value::Func(Builtin::Unsafe)));
    bindings.push(("spookyAdd".to_string(), Value::UnsafeFunc(Builtin::SpookyAdd)));
    bindings.push(("lua".to_string(), Value::UnsafeFunc(Builtin::Lua)));
    bindings.push(("readf".to_string(), Value::UnsafeFunc(Builtin::Readf)));
    bindings.push(("include".to_string(), Value::UnsafeFunc(Builtin::Include)));
    assert(bindings_model(bindings@) =~= default_bindings());
    proof {
        lemma_default_bindings_unique();
        lemma_normalize_fixed(default_bindings());
    }
    LispEnv::from_hashmap(bindings)
}

impl Default for LispEnv<'static> {
    /// The root environment.
    fn default() -> (r: LispEnv<'static>)
        ensures
            r@.bindings == default_bindings(),
            r@.unsafe_level == 0,
    {
        default_env()
    }
}

} // verus!
