use lxsp::add_lib;
use lxsp::builtins::default_env;
use lxsp::env::LispEnv;
use lxsp::eval::{EvalError, Host};
use lxsp::parse::ParseError;
use lxsp::parse_eval;
use lxsp::parse_eval_and_macro_pass;
use lxsp::parse_string;
use lxsp::scan::Scanner;
use lxsp::semantics::Strategy;
use lxsp::value::{Builtin, Value};

const DEPTH: usize = 200;

const STD: &str = "(
(id (fn (x) x))
(not (fn (x) (if x false true)))
(nilP (fn (x) (eq x ())))
(truthyP (fn (x) (not (nilP x))))
(mul (fn (x y) (if (lt y 1) 0 (add x (mul x (sub y 1))))))
(div (fn (x y) (if (lt x y) 0 (add 1 (div (sub x y) y)))))
(fib (fn (n) (if (lt n 2) n (add (fib (sub n 1)) (fib (sub n 2))))))
(firsts (fn (l) (if (nilP l) () (cons (car (car l)) (firsts (cdr l))))))
(seconds (fn (l) (if (nilP l) () (cons (car (cdr (car l))) (seconds (cdr l))))))
(longOr (fn (x y) (if (truthyP x) x y)))
)";

fn get_std<'a>(base_env: &'a LispEnv<'a>, host: &Host) -> Result<LispEnv<'a>, EvalError> {
    add_lib(base_env, STD, host, DEPTH)
}

fn run(src: &str) -> Result<Value, EvalError> {
    let env = default_env();
    let host = Host::new();
    parse_eval(src, &env, &host, DEPTH)
}

fn num(i: i64) -> Value {
    Value::Integer(i)
}

fn sym(s: &str) -> Value {
    Value::Symbol(s.to_string())
}

#[test]
fn unsafe_call() {
    let env = LispEnv::default();
    let host = Host::new();

    let src = "(unsafe (spookyAdd 10 32))";

    let result = Value::Integer(42);

    assert_eq!(parse_eval(src, &env, &host, DEPTH).unwrap(), result);
}

#[test]
fn safe_unsafe_call() {
    let env = LispEnv::default();
    let host = Host::new();

    let src = "(unsafe (add 10 32))";

    let result = Value::Integer(42);

    assert_eq!(parse_eval(src, &env, &host, DEPTH).unwrap(), result);
}

#[test]
fn lua_core() {
    let env = LispEnv::default();
    let mut host = Host::new();
    host.add_script("src/core.lua".to_string(), Some(0));

    parse_eval("(unsafe (lua 'core))", &env, &host, DEPTH).unwrap();
}

#[test]
fn std_test() {
    let base_env = LispEnv::default();
    let host = Host::new();

    let env = get_std(&base_env, &host).unwrap();

    let list_source = "'((a 1) (b 2) (c 3))";

    let firsts_source = "'(a b c)";

    let seconds_source = "'(1 2 3)";

    let _list = parse_eval(list_source, &env, &host, DEPTH).unwrap();

    let firsts = parse_eval(firsts_source, &env, &host, DEPTH).unwrap();

    let seconds = parse_eval(seconds_source, &env, &host, DEPTH).unwrap();

    let tests = vec![
        ("(id 37)".to_string(), Value::Integer(37)),
        ("(car '(10 20 30))".to_string(), Value::Integer(10)),
        ("(car (cdr '(10 20 30)))".to_string(), Value::Integer(20)),
        ("(car (cdr (cdr '(10 20 30))))".to_string(), Value::Integer(30)),
        ("(div 100 30)".to_string(), Value::Integer(3)),
        ("(mul 100 30)".to_string(), Value::Integer(3000)),
        ("(fib 10)".to_string(), Value::Integer(55)),
        ("(nilP ())".to_string(), Value::Bool(true)),
        ("(nilP '())".to_string(), Value::Bool(true)),
        ("(nilP 't)".to_string(), Value::Bool(false)),
        ("(nilP '(t))".to_string(), Value::Bool(false)),
        ("(not false)".to_string(), Value::Bool(true)),
        ("(not true)".to_string(), Value::Bool(false)),
        ("(truthyP ())".to_string(), Value::Bool(false)),
        ("(truthyP '())".to_string(), Value::Bool(false)),
        ("(truthyP 't)".to_string(), Value::Bool(true)),
        ("(truthyP '(t))".to_string(), Value::Bool(true)),
        (format!("(firsts {})", list_source), firsts),
        (format!("(seconds {})", list_source), seconds),
    ];

    for (src, result) in &tests {
        assert_eq!(parse_eval(src, &env, &host, DEPTH).unwrap(), *result);
    }
}

#[test]
fn reduce_vs_eval() {
    let base_env = LispEnv::default();
    let host = Host::new();

    let env = get_std(&base_env, &host).unwrap();

    let list_source = "'((a 1) (b 2) (c 3))";

    let firsts_source = "'(a b c)";

    let seconds_source = "'(1 2 3)";

    let _list = parse_eval(list_source, &env, &host, DEPTH).unwrap();

    let firsts = parse_eval(firsts_source, &env, &host, DEPTH).unwrap();

    let seconds = parse_eval(seconds_source, &env, &host, DEPTH).unwrap();

    let tests = vec![
        ("(id 37)".to_string(), Value::Integer(37)),
        ("(car '(10 20 30))".to_string(), Value::Integer(10)),
        ("(car (cdr '(10 20 30)))".to_string(), Value::Integer(20)),
        ("(car (cdr (cdr '(10 20 30))))".to_string(), Value::Integer(30)),
        ("(div 100 30)".to_string(), Value::Integer(3)),
        ("(mul 100 30)".to_string(), Value::Integer(3000)),
        ("(fib 10)".to_string(), Value::Integer(55)),
        ("(nilP ())".to_string(), Value::Bool(true)),
        ("(nilP '())".to_string(), Value::Bool(true)),
        ("(nilP 't)".to_string(), Value::Bool(false)),
        ("(nilP '(t))".to_string(), Value::Bool(false)),
        ("(not false)".to_string(), Value::Bool(true)),
        ("(not true)".to_string(), Value::Bool(false)),
        ("(truthyP ())".to_string(), Value::Bool(false)),
        ("(truthyP '())".to_string(), Value::Bool(false)),
        ("(truthyP 't)".to_string(), Value::Bool(true)),
        ("(truthyP '(t))".to_string(), Value::Bool(true)),
        (format!("(firsts {})", list_source), firsts),
        (format!("(seconds {})", list_source), seconds),
        (
            "(longOr true '(x y z (quote ('a 'b c d)) 1 2 3 '4 '5))".to_string(),
            Value::Bool(true),
        ),
    ];

    for (src, result) in &tests {
        let parsed = parse_string(src).unwrap();
        let eval_result = env.eval(&parsed, &host, DEPTH).unwrap();
        let reduce_result = env.reduce(&parsed, &host, DEPTH).unwrap();
        assert_eq!(eval_result, *result, "!!! eval !!!");
        assert_eq!(reduce_result, *result, "!!! reduce !!!");
        assert_eq!(eval_result, reduce_result, "!!! eval vs reduce !!!");
    }
}

#[test]
fn scan_math_test() {
    let src = "(add
(add 10 5 2)
(sub 10 7)
(sub 10 (add 5 2))
(sub(add 1 1)1)
(    add    5       6       )

)";

    let scanner = Scanner::new(src);

    let tokens = scanner.tokens();

    assert_eq!(tokens.len(), 37);
}

#[test]
fn add_takes_any_number_of_integers() {
    assert_eq!(run("(add 10 5 2)").unwrap(), num(17));
    assert_eq!(run("(add)").unwrap(), num(0));
    assert_eq!(run("(add 7)").unwrap(), num(7));
    assert_eq!(run("(add (add 1 2) (sub 10 4))").unwrap(), num(9));
}

#[test]
fn sub_takes_two_integers() {
    assert_eq!(run("(sub 10 7)").unwrap(), num(3));
    assert_eq!(run("(sub 7 10)").unwrap(), num(-3));
    assert!(matches!(run("(sub 1)"), Err(EvalError::ArityMismatch)));
    assert!(matches!(run("(sub 1 2 3)"), Err(EvalError::ArityMismatch)));
}

#[test]
fn arithmetic_wraps_on_overflow() {
    assert_eq!(run("(add 9223372036854775807 1)").unwrap(), num(i64::MIN));
    assert_eq!(run("(sub (sub 0 9223372036854775807) 2)").unwrap(), num(i64::MAX));
    assert_eq!(
        run("(unsafe (spookyAdd 9223372036854775807 9223372036854775807))").unwrap(),
        num(-2)
    );
}

#[test]
fn arithmetic_rejects_what_is_no_integer() {
    assert!(matches!(run("(add 1 true)"), Err(EvalError::TypeMismatch)));
    assert!(matches!(run("(add 1 'a)"), Err(EvalError::TypeMismatch)));
    assert!(matches!(run("(sub '(1) 2)"), Err(EvalError::TypeMismatch)));
    assert!(matches!(run("(lt 1 false)"), Err(EvalError::TypeMismatch)));
    assert!(matches!(run("(gt add 1)"), Err(EvalError::TypeMismatch)));
}

#[test]
fn operands_are_evaluated_from_left_to_right() {
    // The first operand that fails decides the error.
    match run("(add nope true)") {
        Err(EvalError::UndeclaredSymbol(name)) => assert_eq!(name, "nope"),
        other => panic!("{:?}", other),
    }
    assert!(matches!(run("(add true nope)"), Err(EvalError::TypeMismatch)));
    match run("(list 1 first second)") {
        Err(EvalError::UndeclaredSymbol(name)) => assert_eq!(name, "first"),
        other => panic!("{:?}", other),
    }
}

#[test]
fn comparisons() {
    assert_eq!(run("(lt 1 2)").unwrap(), Value::Bool(true));
    assert_eq!(run("(lt 2 2)").unwrap(), Value::Bool(false));
    assert_eq!(run("(gt 3 2)").unwrap(), Value::Bool(true));
    assert_eq!(run("(gt 2 3)").unwrap(), Value::Bool(false));
    assert!(matches!(run("(lt 1)"), Err(EvalError::ArityMismatch)));
    assert!(matches!(run("(gt 1 2 3)"), Err(EvalError::ArityMismatch)));
}

#[test]
fn car_and_cdr() {
    assert_eq!(run("(car '(10 20 30))").unwrap(), num(10));
    assert_eq!(
        run("(cdr '(10 20 30))").unwrap(),
        Value::List(vec![num(20), num(30)])
    );
    assert_eq!(run("(car (cdr (cdr '(10 20 30))))").unwrap(), num(30));
    assert_eq!(run("(car ())").unwrap(), Value::nil());
    assert_eq!(run("(cdr ())").unwrap(), Value::nil());
    assert_eq!(run("(cdr '(1))").unwrap(), Value::nil());
    assert!(matches!(run("(car 1)"), Err(EvalError::TypeMismatch)));
    assert!(matches!(run("(cdr true)"), Err(EvalError::TypeMismatch)));
    assert!(matches!(run("(car)"), Err(EvalError::ArityMismatch)));
    assert!(matches!(run("(cdr '(1) '(2))"), Err(EvalError::ArityMismatch)));
}

#[test]
fn cons_grows_lists_only() {
    assert_eq!(
        run("(cons 1 '(2 3))").unwrap(),
        Value::List(vec![num(1), num(2), num(3)])
    );
    assert_eq!(run("(cons 1 ())").unwrap(), Value::List(vec![num(1)]));
    assert_eq!(
        run("(cons '(1) '(2))").unwrap(),
        Value::List(vec![Value::List(vec![num(1)]), num(2)])
    );
    assert!(matches!(run("(cons 1 2)"), Err(EvalError::TypeMismatch)));
    assert!(matches!(run("(cons 1)"), Err(EvalError::ArityMismatch)));
}

#[test]
fn list_collects_values() {
    assert_eq!(
        run("(list 1 (add 1 1) 'a)").unwrap(),
        Value::List(vec![num(1), num(2), sym("a")])
    );
    assert_eq!(run("(list)").unwrap(), Value::nil());
}

#[test]
fn quote_returns_the_form() {
    assert_eq!(
        run("(quote (add 1 2))").unwrap(),
        Value::List(vec![sym("add"), num(1), num(2)])
    );
    assert_eq!(run("'a").unwrap(), sym("a"));
    assert!(matches!(run("(quote)"), Err(EvalError::ArityMismatch)));
    assert!(matches!(run("(quote 1 2)"), Err(EvalError::ArityMismatch)));
}

#[test]
fn if_evaluates_exactly_one_branch() {
    assert_eq!(run("(if true 1 2)").unwrap(), num(1));
    assert_eq!(run("(if false 1 2)").unwrap(), num(2));
    // The branch that is not taken is not evaluated.
    assert_eq!(run("(if true 1 nope)").unwrap(), num(1));
    assert_eq!(run("(if false nope 2)").unwrap(), num(2));
    assert!(matches!(run("(if 1 1 2)"), Err(EvalError::TypeMismatch)));
    assert!(matches!(run("(if () 1 2)"), Err(EvalError::TypeMismatch)));
    assert!(matches!(run("(if true 1)"), Err(EvalError::ArityMismatch)));
}

#[test]
fn eq_is_structural_and_not_reflexive() {
    assert_eq!(run("(eq 1 1)").unwrap(), Value::Bool(true));
    assert_eq!(run("(eq 1 2)").unwrap(), Value::Bool(false));
    assert_eq!(run("(eq 'a 'a)").unwrap(), Value::Bool(true));
    assert_eq!(run("(eq 'a 'b)").unwrap(), Value::Bool(false));
    assert_eq!(run("(eq true true)").unwrap(), Value::Bool(true));
    assert_eq!(run("(eq 1 true)").unwrap(), Value::Bool(false));
    assert_eq!(run("(eq '(1 (2 a)) '(1 (2 a)))").unwrap(), Value::Bool(true));
    assert_eq!(run("(eq '(1 2) '(1 2 3))").unwrap(), Value::Bool(false));
    assert_eq!(run("(eq () ())").unwrap(), Value::Bool(true));
    // Closures, primitives and macros equal nothing, not even themselves.
    assert_eq!(run("(eq (fn (x) x) (fn (x) x))").unwrap(), Value::Bool(false));
    assert_eq!(
        run("(let '((f (fn (x) x))) (eq f f))").unwrap(),
        Value::Bool(false)
    );
    assert_eq!(run("(eq add add)").unwrap(), Value::Bool(false));
    assert_eq!(run("(eq readf readf)").unwrap(), Value::Bool(false));
    assert_eq!(
        run("(eq (macro (a) a) (macro (a) a))").unwrap(),
        Value::Bool(false)
    );
    // A list that holds a closure does not equal itself either.
    assert_eq!(
        run("(let '((l (list add))) (eq l l))").unwrap(),
        Value::Bool(false)
    );
    assert!(matches!(run("(eq 1)"), Err(EvalError::ArityMismatch)));
}

#[test]
fn value_equality_is_not_reflexive_for_callables() {
    let lambda = run("(fn (x) x)").unwrap();
    let other = run("(fn (x) x)").unwrap();
    assert!(lambda != other);
    assert!(!(lambda == lambda.clone()));
    let func = Value::Func(Builtin::Add);
    assert!(!(func == Value::Func(Builtin::Add)));
    let unsafe_func = Value::UnsafeFunc(Builtin::Lua);
    assert!(!(unsafe_func == Value::UnsafeFunc(Builtin::Lua)));
    assert!(!(func == lambda));
    assert!(num(1) == num(1));
    assert!(num(1) != num(2));
    assert!(num(1) != Value::Bool(true));
    assert!(sym("a") == sym("a"));
    assert!(Value::nil() == Value::nil());
}

#[test]
fn atom_tells_atoms_from_lists() {
    assert_eq!(run("(atom 1)").unwrap(), Value::Bool(true));
    assert_eq!(run("(atom 'a)").unwrap(), Value::Bool(true));
    assert_eq!(run("(atom true)").unwrap(), Value::Bool(true));
    assert_eq!(run("(atom ())").unwrap(), Value::Bool(true));
    assert_eq!(run("(atom add)").unwrap(), Value::Bool(true));
    assert_eq!(run("(atom '(1))").unwrap(), Value::Bool(false));
    assert!(matches!(run("(atom)"), Err(EvalError::ArityMismatch)));
}

#[test]
fn a_closure_binds_its_parameters_for_the_call_only() {
    let env = default_env();
    let host = Host::new();
    assert_eq!(
        parse_eval("((fn (x) (add x 1)) 5)", &env, &host, DEPTH).unwrap(),
        num(6)
    );
    // The binding of x is not visible outside the call.
    match parse_eval("x", &env, &host, DEPTH) {
        Err(EvalError::UndeclaredSymbol(name)) => assert_eq!(name, "x"),
        other => panic!("{:?}", other),
    }
    assert!(env.get(&"x".to_string()).is_none());
}

#[test]
fn a_parameter_that_stands_twice_is_bound_to_the_last_argument() {
    assert_eq!(run("((fn (x x) x) 1 2)").unwrap(), num(2));
    assert_eq!(run("(let '((x 1) (y 5) (x 2)) (add x y))").unwrap(), num(7));
}

#[test]
fn a_snapshot_binds_each_name_once() {
    match run("(let '((car 1) (x 2)) (let '((x 3)) (fn () x)))").unwrap() {
        Value::Lambda(lambda) => {
            // The 24 names of the root, with `car` bound anew, and `x`.
            assert_eq!(lambda.closure.len(), 25);
            let names: Vec<&str> = lambda.closure.iter().map(|b| b.0.as_str()).collect();
            assert_eq!(names.iter().filter(|n| **n == "x").count(), 1);
            assert_eq!(names.iter().filter(|n| **n == "car").count(), 1);
            let x = lambda.closure.iter().find(|b| b.0 == "x").unwrap();
            assert_eq!(x.1, num(3));
            let car = lambda.closure.iter().find(|b| b.0 == "car").unwrap();
            assert_eq!(car.1, num(1));
        }
        other => panic!("{:?}", other),
    }
}

#[test]
fn a_closure_checks_its_arguments() {
    assert!(matches!(run("((fn (x) x))"), Err(EvalError::ArityMismatch)));
    assert!(matches!(run("((fn (x) x) 1 2)"), Err(EvalError::ArityMismatch)));
    assert!(matches!(run("(fn (1) x)"), Err(EvalError::TypeMismatch)));
    assert!(matches!(run("(fn x x)"), Err(EvalError::TypeMismatch)));
    assert!(matches!(run("(fn (x))"), Err(EvalError::ArityMismatch)));
    match run("((fn (x) x) nope)") {
        Err(EvalError::UndeclaredSymbol(name)) => assert_eq!(name, "nope"),
        other => panic!("{:?}", other),
    }
}

#[test]
fn a_closure_captures_a_snapshot_of_its_scope() {
    // The captured binding of y wins over the caller's binding of y.
    assert_eq!(
        run("(let '((y 1)) (let (list (list 'f (fn (x) (add x y)))) (let '((y 100)) (f 10))))")
            .unwrap(),
        num(11)
    );
    // What the closure did not capture is looked up where it is called.
    assert_eq!(
        run("(let (list (list 'f (fn (x) (add x y)))) (let '((y 100)) (f 10)))").unwrap(),
        num(110)
    );
}

#[test]
fn a_closure_value_holds_its_parts() {
    match run("(fn (x) (add x 1))").unwrap() {
        Value::Lambda(lambda) => {
            assert_eq!(*lambda.args, Value::List(vec![sym("x")]));
            assert_eq!(
                *lambda.body,
                Value::List(vec![sym("add"), sym("x"), num(1)])
            );
            // The snapshot holds every binding of the root environment.
            assert_eq!(lambda.closure.len(), 24);
        }
        other => panic!("{:?}", other),
    }
}

#[test]
fn let_binds_names_in_a_new_frame() {
    assert_eq!(run("(let '((x 5)) (add x 1))").unwrap(), num(6));
    assert_eq!(run("(let '((x 5) (y 7)) (add x y))").unwrap(), num(12));
    assert_eq!(run("(let '((x (add 2 3))) (add x 1))").unwrap(), num(6));
    assert_eq!(run("(let () 3)").unwrap(), num(3));
    // A later binding of a name hides an earlier one.
    assert_eq!(run("(let '((x 1) (x 2)) x)").unwrap(), num(2));
    // An inner frame shadows an outer one.
    assert_eq!(run("(let '((x 1)) (let '((x 2)) x))").unwrap(), num(2));
    // A value is evaluated once: a quoted list stays a list.
    assert_eq!(
        run("(let '((x '(1 2))) x)").unwrap(),
        Value::List(vec![num(1), num(2)])
    );
}

#[test]
fn let_rejects_malformed_bindings() {
    assert!(matches!(run("(let 1 2)"), Err(EvalError::MalformedForm)));
    assert!(matches!(run("(let '(x) 2)"), Err(EvalError::MalformedForm)));
    assert!(matches!(run("(let '((x)) 2)"), Err(EvalError::MalformedForm)));
    assert!(matches!(run("(let '((x 1 2)) 2)"), Err(EvalError::MalformedForm)));
    assert!(matches!(run("(let '((1 2)) 2)"), Err(EvalError::TypeMismatch)));
    assert!(matches!(run("(let '((x 1)))"), Err(EvalError::ArityMismatch)));
    match run("(let '((x nope)) 2)") {
        Err(EvalError::UndeclaredSymbol(name)) => assert_eq!(name, "nope"),
        other => panic!("{:?}", other),
    }
}

#[test]
fn eval_runs_data_as_code() {
    assert_eq!(run("(eval '(add 1 2))").unwrap(), num(3));
    assert_eq!(run("(eval (list 'add 1 2))").unwrap(), num(3));
    assert_eq!(run("(eval 5)").unwrap(), num(5));
    assert!(matches!(run("(eval)"), Err(EvalError::ArityMismatch)));
}

#[test]
fn privileged_primitives_need_an_unsafe_block() {
    assert!(matches!(
        run("(spookyAdd 10 32)"),
        Err(EvalError::PrivilegeDenied)
    ));
    assert_eq!(run("(unsafe (spookyAdd 10 32))").unwrap(), num(42));
    assert!(matches!(run("(lua 'core)"), Err(EvalError::PrivilegeDenied)));
    assert!(matches!(run("(readf 'std)"), Err(EvalError::PrivilegeDenied)));
    assert!(matches!(
        run("(include 'std 1)"),
        Err(EvalError::PrivilegeDenied)
    ));
    // The denial comes before the arguments are looked at.
    assert!(matches!(run("(spookyAdd)"), Err(EvalError::PrivilegeDenied)));
    assert!(matches!(
        run("(unsafe (spookyAdd 1))"),
        Err(EvalError::ArityMismatch)
    ));
    assert!(matches!(run("(unsafe)"), Err(EvalError::ArityMismatch)));
    // Blocks nest.
    assert_eq!(run("(unsafe (unsafe (spookyAdd 1 2)))").unwrap(), num(3));
}

#[test]
fn privilege_is_that_of_the_call_site() {
    // A closure made inside an unsafe block has no privilege of its own.
    assert!(matches!(
        run("(let (list (list 'f (unsafe (fn (a b) (spookyAdd a b))))) (f 1 2))"),
        Err(EvalError::PrivilegeDenied)
    ));
    // Called from inside an unsafe block, it has that of the caller.
    assert_eq!(
        run("(let (list (list 'f (fn (a b) (spookyAdd a b)))) (unsafe (f 1 2)))").unwrap(),
        num(3)
    );
    // The body of a let starts without privilege.
    assert!(matches!(
        run("(unsafe (let '((x 1)) (spookyAdd x 1)))"),
        Err(EvalError::PrivilegeDenied)
    ));
}

#[test]
fn undeclared_symbol_is_named() {
    match run("nope") {
        Err(EvalError::UndeclaredSymbol(name)) => assert_eq!(name, "nope"),
        other => panic!("{:?}", other),
    }
    match run("(nope 1 2)") {
        Err(EvalError::UndeclaredSymbol(name)) => assert_eq!(name, "nope"),
        other => panic!("{:?}", other),
    }
}

#[test]
fn only_functions_can_be_called() {
    assert!(matches!(run("(1 2 3)"), Err(EvalError::NotCallable)));
    assert!(matches!(run("(true)"), Err(EvalError::NotCallable)));
    assert!(matches!(run("('a 1)"), Err(EvalError::NotCallable)));
    assert!(matches!(run("('(1 2) 1)"), Err(EvalError::NotCallable)));
    assert!(matches!(run("(() 1)"), Err(EvalError::NotCallable)));
    assert!(matches!(run("(exit)"), Err(EvalError::NotCallable)));
}

#[test]
fn atoms_evaluate_to_themselves() {
    let env = default_env();
    let host = Host::new();
    let values = vec![
        Value::Bool(true),
        Value::Bool(false),
        num(0),
        num(-7),
        num(i64::MAX),
        Value::nil(),
    ];
    for v in &values {
        let once = env.eval(v, &host, 0).unwrap();
        assert_eq!(once, *v);
        let twice = env.eval(&once, &host, 0).unwrap();
        assert_eq!(twice, *v);
        assert_eq!(env.reduce(v, &host, 0).unwrap(), *v);
    }
    assert!(matches!(
        env.eval(&Value::Func(Builtin::Add), &host, 0).unwrap(),
        Value::Func(Builtin::Add)
    ));
    assert!(matches!(
        env.eval(&Value::UnsafeFunc(Builtin::Lua), &host, 0).unwrap(),
        Value::UnsafeFunc(Builtin::Lua)
    ));
    assert_eq!(run("true").unwrap(), Value::Bool(true));
    assert_eq!(run("false").unwrap(), Value::Bool(false));
    assert_eq!(run("exit").unwrap(), sym("exit"));
    assert_eq!(run("()").unwrap(), Value::nil());
    assert_eq!(run("17").unwrap(), num(17));
}

#[test]
fn depth_bounds_the_nesting_of_calls() {
    let env = default_env();
    let host = Host::new();
    assert!(matches!(
        parse_eval("(add 1 2)", &env, &host, 0),
        Err(EvalError::DepthExceeded)
    ));
    assert_eq!(parse_eval("(add 1 2)", &env, &host, 1).unwrap(), num(3));
    assert!(matches!(
        parse_eval("(add 1 (add 2 3))", &env, &host, 1),
        Err(EvalError::DepthExceeded)
    ));
    assert_eq!(
        parse_eval("(add 1 (add 2 3))", &env, &host, 2).unwrap(),
        num(6)
    );
    // A program that would never end runs out of depth.
    assert!(matches!(
        parse_eval("((fn (f) (f f)) (fn (f) (f f)))", &env, &host, DEPTH),
        Err(EvalError::DepthExceeded)
    ));
}

#[test]
fn default_depth_is_reached_without_exhausting_the_stack() {
    let base_env = default_env();
    let host = Host::new();
    let env = add_lib(
        &base_env,
        "((count (fn (n) (if (lt n 1) 0 (add 1 (count (sub n 1)))))))",
        &host,
        lxsp::DEFAULT_DEPTH,
    )
    .unwrap();
    assert_eq!(
        parse_eval("(count 600)", &env, &host, lxsp::DEFAULT_DEPTH).unwrap(),
        num(600)
    );
    let std = get_std(&base_env, &host).unwrap();
    assert_eq!(
        parse_eval("(mul 100 100)", &std, &host, lxsp::DEFAULT_DEPTH).unwrap(),
        num(10000)
    );
    assert_eq!(
        parse_eval("(div 1000 3)", &std, &host, lxsp::DEFAULT_DEPTH).unwrap(),
        num(333)
    );
    assert!(matches!(
        parse_eval("(count 100000)", &env, &host, lxsp::DEFAULT_DEPTH),
        Err(EvalError::DepthExceeded)
    ));
}

#[test]
fn more_depth_changes_nothing() {
    let base = default_env();
    let host = Host::new();
    let env = get_std(&base, &host).unwrap();
    let form = parse_string("(fib 6)").unwrap();
    let mut first: Option<usize> = None;
    for depth in 0..60 {
        match env.eval(&form, &host, depth) {
            Err(EvalError::DepthExceeded) => assert!(first.is_none()),
            Ok(v) => {
                assert_eq!(v, num(8));
                if first.is_none() {
                    first = Some(depth);
                }
            }
            other => panic!("{:?}", other),
        }
    }
    assert!(first.is_some());
    // An error that is not about depth stays the same as well.
    let failing = parse_string("(add 1 (car 2))").unwrap();
    for depth in 2..10 {
        assert!(matches!(
            env.eval(&failing, &host, depth),
            Err(EvalError::TypeMismatch)
        ));
    }
}

#[test]
fn a_fuller_host_record_changes_nothing() {
    let env = default_env();
    let mut host = Host::new();
    host.add_file("lisb/a.l".to_string(), "((x 1))".to_string());
    let src = "(unsafe (include 'a (add x 1)))";
    assert_eq!(parse_eval(src, &env, &host, DEPTH).unwrap(), num(2));
    host.add_file("lisb/b.l".to_string(), "((x 2))".to_string());
    host.add_script("src/a.lua".to_string(), Some(1));
    assert_eq!(parse_eval(src, &env, &host, DEPTH).unwrap(), num(2));
}

#[test]
fn reduce_leaves_open_terms_and_privileged_calls() {
    let env = default_env();
    let host = Host::new();
    // An unbound symbol reduces to itself; evaluation fails on it.
    let open = parse_string("nope").unwrap();
    assert_eq!(env.reduce(&open, &host, DEPTH).unwrap(), sym("nope"));
    assert!(matches!(
        env.eval(&open, &host, DEPTH),
        Err(EvalError::UndeclaredSymbol(_))
    ));
    // A call of a privileged primitive reduces to the call as it is written.
    let call = parse_string("(spookyAdd (add 1 2) 3)").unwrap();
    assert_eq!(env.reduce(&call, &host, DEPTH).unwrap(), call);
    // So it does at a positive privilege level.
    let unsafer = env.new_unsafer_env();
    assert_eq!(unsafer.reduce(&call, &host, DEPTH).unwrap(), call);
    assert_eq!(unsafer.eval(&call, &host, DEPTH).unwrap(), num(6));
    // For pure programs reduction is evaluation.
    let pure = parse_string("(add 1 (sub 5 2))").unwrap();
    assert_eq!(
        env.reduce(&pure, &host, DEPTH).unwrap(),
        env.eval(&pure, &host, DEPTH).unwrap()
    );
    assert!(matches!(
        env.reduce(&parse_string("(1 2)").unwrap(), &host, DEPTH),
        Err(EvalError::NotCallable)
    ));
    assert_eq!(
        env.delegated_eval(&pure, Strategy::Reduce, &host, DEPTH).unwrap(),
        num(4)
    );
    assert_eq!(
        env.delegated_eval(&pure, Strategy::Eval, &host, DEPTH).unwrap(),
        num(4)
    );
}

#[test]
fn lua_asks_for_the_script_and_reports_its_status() {
    let env = default_env();
    let mut host = Host::new();
    match parse_eval("(unsafe (lua 'core))", &env, &host, DEPTH) {
        Err(EvalError::NeedsScript(path)) => assert_eq!(path, "src/core.lua"),
        other => panic!("{:?}", other),
    }
    host.add_script("src/core.lua".to_string(), Some(3));
    assert_eq!(
        parse_eval("(unsafe (lua 'core))", &env, &host, DEPTH).unwrap(),
        Value::List(vec![num(3), sym("unimplemented")])
    );
    host.add_script("src/killed.lua".to_string(), None);
    assert_eq!(
        parse_eval("(unsafe (lua 'killed))", &env, &host, DEPTH).unwrap(),
        Value::List(vec![Value::nil(), sym("unimplemented")])
    );
    // A later record replaces an earlier one.
    host.add_script("src/core.lua".to_string(), Some(0));
    assert_eq!(
        parse_eval("(unsafe (lua 'core))", &env, &host, DEPTH).unwrap(),
        Value::List(vec![num(0), sym("unimplemented")])
    );
    assert!(matches!(
        parse_eval("(unsafe (lua 1))", &env, &host, DEPTH),
        Err(EvalError::TypeMismatch)
    ));
    assert!(matches!(
        parse_eval("(unsafe (lua))", &env, &host, DEPTH),
        Err(EvalError::ArityMismatch)
    ));
}

#[test]
fn readf_builds_the_path_from_one_two_or_three_names() {
    let env = default_env();
    let mut host = Host::new();
    match parse_eval("(unsafe (readf 'std))", &env, &host, DEPTH) {
        Err(EvalError::NeedsFile(path)) => assert_eq!(path, "lisb/std.l"),
        other => panic!("{:?}", other),
    }
    match parse_eval("(unsafe (readf 'data 'txt))", &env, &host, DEPTH) {
        Err(EvalError::NeedsFile(path)) => assert_eq!(path, "lisb/data.txt"),
        other => panic!("{:?}", other),
    }
    match parse_eval("(unsafe (readf 'dir 'data 'txt))", &env, &host, DEPTH) {
        Err(EvalError::NeedsFile(path)) => assert_eq!(path, "dir/data.txt"),
        other => panic!("{:?}", other),
    }
    host.add_file("lisb/std.l".to_string(), "((x 5) (y (add 1 2)))".to_string());
    // The file is parsed and not evaluated.
    assert_eq!(
        parse_eval("(unsafe (readf 'std))", &env, &host, DEPTH).unwrap(),
        Value::List(vec![
            Value::List(vec![sym("x"), num(5)]),
            Value::List(vec![
                sym("y"),
                Value::List(vec![sym("add"), num(1), num(2)])
            ]),
        ])
    );
    host.add_file("lisb/bad.l".to_string(), "(1 2".to_string());
    assert!(matches!(
        parse_eval("(unsafe (readf 'bad))", &env, &host, DEPTH),
        Err(EvalError::Syntax(ParseError::UnclosedList(3, 4)))
    ));
    assert!(matches!(
        parse_eval("(unsafe (readf))", &env, &host, DEPTH),
        Err(EvalError::ArityMismatch)
    ));
    assert!(matches!(
        parse_eval("(unsafe (readf 'a 'b 'c 'd))", &env, &host, DEPTH),
        Err(EvalError::ArityMismatch)
    ));
    assert!(matches!(
        parse_eval("(unsafe (readf 1))", &env, &host, DEPTH),
        Err(EvalError::TypeMismatch)
    ));
    assert!(matches!(
        parse_eval("(unsafe (readf 'a 2))", &env, &host, DEPTH),
        Err(EvalError::TypeMismatch)
    ));
}

#[test]
fn include_binds_a_library_for_a_body() {
    let env = default_env();
    let mut host = Host::new();
    match parse_eval("(unsafe (include 'std (add x y)))", &env, &host, DEPTH) {
        Err(EvalError::NeedsFile(path)) => assert_eq!(path, "lisb/std.l"),
        other => panic!("{:?}", other),
    }
    host.add_file("lisb/std.l".to_string(), "((x 5) (y (add 1 2)))".to_string());
    assert_eq!(
        parse_eval("(unsafe (include 'std (add x y)))", &env, &host, DEPTH).unwrap(),
        num(8)
    );
    assert!(matches!(
        parse_eval("(unsafe (include 'std))", &env, &host, DEPTH),
        Err(EvalError::ArityMismatch)
    ));
}

#[test]
fn host_records_are_looked_up_by_path() {
    let mut host = Host::new();
    assert!(host.file(&"a".to_string()).is_none());
    assert!(host.script(&"a".to_string()).is_none());
    host.add_file("a".to_string(), "one".to_string());
    host.add_file("b".to_string(), "two".to_string());
    host.add_file("a".to_string(), "three".to_string());
    assert_eq!(host.file(&"a".to_string()).unwrap(), "three");
    assert_eq!(host.file(&"b".to_string()).unwrap(), "two");
    assert!(host.file(&"c".to_string()).is_none());
    host.add_script("s".to_string(), Some(1));
    host.add_script("t".to_string(), None);
    assert_eq!(host.script(&"s".to_string()), Some(Some(1)));
    assert_eq!(host.script(&"t".to_string()), Some(None));
    assert_eq!(host.script(&"u".to_string()), None);
}

#[test]
fn a_source_that_is_no_expression_is_a_syntax_error() {
    assert!(matches!(
        run("(add 1"),
        Err(EvalError::Syntax(ParseError::UnclosedList(5, 6)))
    ));
    assert!(matches!(run(""), Err(EvalError::Syntax(ParseError::NoToken))));
    assert!(matches!(
        run(")"),
        Err(EvalError::Syntax(ParseError::UnexpectedRightParen))
    ));
    let env = default_env();
    let host = Host::new();
    assert!(matches!(
        parse_eval_and_macro_pass("(add 1", &env, &host, DEPTH),
        Err(EvalError::Syntax(ParseError::UnclosedList(5, 6)))
    ));
    assert!(matches!(
        add_lib(&env, "(", &host, DEPTH),
        Err(EvalError::Syntax(ParseError::NoToken))
    ));
}

#[test]
fn a_library_binds_its_names_in_a_child_frame() {
    let base = default_env();
    let host = Host::new();
    let env = add_lib(&base, "((two 2) (three (add 1 two)))", &host, DEPTH);
    // The values are evaluated in the base environment, where `two` is not
    // bound yet.
    assert!(matches!(env, Err(EvalError::UndeclaredSymbol(_))));
    let env = add_lib(&base, "((two 2) (three (add 1 2)))", &host, DEPTH).unwrap();
    assert_eq!(parse_eval("(add two three)", &env, &host, DEPTH).unwrap(), num(5));
    assert_eq!(env.unsafe_level(), 0);
    assert!(base.get(&"two".to_string()).is_none());
    assert!(matches!(
        add_lib(&base, "(two 2)", &host, DEPTH),
        Err(EvalError::MalformedForm)
    ));
    assert!(matches!(
        add_lib(&base, "5", &host, DEPTH),
        Err(EvalError::MalformedForm)
    ));
}
