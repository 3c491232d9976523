use lxsp::builtins::{
    default_env, get_lua_lib_filename, include_form_of, library_path_of, script_result_of,
    wrapping_total,
};
use lxsp::env::{insert_binding, normalize_bindings, LispEnv};
use lxsp::eval::{bind, EvalError, Host};
use lxsp::parse_string;
use lxsp::value::{Builtin, Value};

const DEPTH: usize = 100;

fn num(i: i64) -> Value {
    Value::Integer(i)
}

fn sym(s: &str) -> Value {
    Value::Symbol(s.to_string())
}

fn name(s: &str) -> String {
    s.to_string()
}

#[test]
fn get_walks_the_chain_from_the_innermost_frame() {
    let root = LispEnv::from_hashmap(vec![(name("x"), num(1)), (name("y"), num(2))]);
    assert_eq!(root.get(&name("x")), Some(&num(1)));
    assert_eq!(root.get(&name("y")), Some(&num(2)));
    assert_eq!(root.get(&name("z")), None);
    let inner = root.new_inner_from_parts(vec![(name("x"), num(10)), (name("z"), num(30))], 0);
    assert_eq!(inner.get(&name("x")), Some(&num(10)));
    assert_eq!(inner.get(&name("y")), Some(&num(2)));
    assert_eq!(inner.get(&name("z")), Some(&num(30)));
    let innermost = inner.new_inner_from_parts(vec![], 0);
    assert_eq!(innermost.get(&name("x")), Some(&num(10)));
    assert_eq!(innermost.get(&name("w")), None);
    // The outer frame is as it was.
    assert_eq!(root.get(&name("x")), Some(&num(1)));
    assert_eq!(root.get(&name("z")), None);
}

#[test]
fn the_last_binding_of_a_name_in_a_frame_wins() {
    let env = LispEnv::from_hashmap(vec![
        (name("x"), num(1)),
        (name("y"), num(2)),
        (name("x"), num(3)),
    ]);
    assert_eq!(env.get(&name("x")), Some(&num(3)));
    assert_eq!(env.get(&name("y")), Some(&num(2)));
    // The frame binds the name once.
    assert_eq!(env.list(), vec!["y", "x"]);
    assert_eq!(env.sorted_list(), vec!["x", "y"]);
    assert_eq!(env.flatten(), vec![(name("y"), num(2)), (name("x"), num(3))]);
    let inner = env.new_inner_from_parts(
        vec![(name("a"), num(1)), (name("a"), num(2)), (name("a"), num(3))],
        0,
    );
    assert_eq!(inner.list(), vec!["a"]);
    assert_eq!(inner.sorted_list(), vec!["a"]);
    assert_eq!(inner.get(&name("a")), Some(&num(3)));
    let other = LispEnv::new(vec![(name("b"), num(1)), (name("b"), num(2))], Some(&env), 1);
    assert_eq!(other.list(), vec!["b"]);
    assert_eq!(other.get(&name("b")), Some(&num(2)));
}

#[test]
fn frames_are_normalized_by_writing_each_binding_in_order() {
    let mut frame = vec![(name("x"), num(1)), (name("y"), num(2))];
    insert_binding(&mut frame, name("z"), num(3));
    assert_eq!(
        frame,
        vec![(name("x"), num(1)), (name("y"), num(2)), (name("z"), num(3))]
    );
    insert_binding(&mut frame, name("x"), num(4));
    assert_eq!(
        frame,
        vec![(name("y"), num(2)), (name("z"), num(3)), (name("x"), num(4))]
    );
    assert_eq!(
        normalize_bindings(vec![
            (name("a"), num(1)),
            (name("b"), num(2)),
            (name("a"), num(3)),
            (name("c"), num(4)),
            (name("b"), num(5)),
        ]),
        vec![(name("a"), num(3)), (name("c"), num(4)), (name("b"), num(5))]
    );
    assert!(normalize_bindings(vec![]).is_empty());
    let unique = vec![(name("a"), num(1)), (name("b"), num(2))];
    assert_eq!(normalize_bindings(unique.clone()), unique);
}

#[test]
fn sorted_names_are_strictly_ascending() {
    let host = Host::new();
    let root = default_env();
    let lib = lxsp::add_lib(&root, "((b 1) (a 2) (b 3) (c 4) (a 5))", &host, DEPTH).unwrap();
    assert_eq!(lib.list(), vec!["b", "c", "a"]);
    let sorted = lib.sorted_list();
    assert_eq!(sorted, vec!["a", "b", "c"]);
    for pair in sorted.windows(2) {
        assert!(pair[0] < pair[1]);
    }
    assert_eq!(lib.get(&name("a")), Some(&num(5)));
    assert_eq!(lib.get(&name("b")), Some(&num(3)));
    let sorted = root.sorted_list();
    assert_eq!(sorted.len(), 24);
    for pair in sorted.windows(2) {
        assert!(pair[0] < pair[1]);
    }
}

#[test]
fn new_builds_a_frame_from_its_parts() {
    let root = LispEnv::new(vec![(name("x"), num(1))], None, 0);
    assert_eq!(root.unsafe_level(), 0);
    let inner = LispEnv::new(vec![(name("y"), num(2))], Some(&root), 3);
    assert_eq!(inner.unsafe_level(), 3);
    assert_eq!(inner.get(&name("x")), Some(&num(1)));
    assert_eq!(inner.get(&name("y")), Some(&num(2)));
    let empty = LispEnv::_empty();
    assert_eq!(empty.get(&name("x")), None);
    assert_eq!(empty.unsafe_level(), 0);
    assert!(empty.list().is_empty());
}

#[test]
fn flatten_keeps_what_lookup_finds() {
    let root = LispEnv::from_hashmap(vec![(name("x"), num(1)), (name("y"), num(2))]);
    let inner = root.new_inner_from_parts(vec![(name("x"), num(10)), (name("z"), num(30))], 0);
    let flat = inner.flatten();
    // Each visible name is bound once, to what the innermost frame says.
    assert_eq!(
        flat,
        vec![
            (name("y"), num(2)),
            (name("x"), num(10)),
            (name("z"), num(30)),
        ]
    );
    let copy = LispEnv::from_hashmap(flat);
    for n in ["x", "y", "z", "w"] {
        assert_eq!(copy.get(&name(n)), inner.get(&name(n)));
    }
    assert_eq!(root.flatten().len(), 2);
}

#[test]
fn unsafer_frames_raise_the_level_by_one() {
    let root = LispEnv::from_hashmap(vec![(name("x"), num(1))]);
    let one = root.new_unsafer_env();
    assert_eq!(one.unsafe_level(), 1);
    assert!(one.list().is_empty());
    assert_eq!(one.get(&name("x")), Some(&num(1)));
    let two = one.new_unsafer_env();
    assert_eq!(two.unsafe_level(), 2);
    assert_eq!(root.unsafe_level(), 0);
    let top = LispEnv::new(vec![], None, usize::MAX);
    assert_eq!(top.new_unsafer_env().unsafe_level(), usize::MAX);
}

#[test]
fn names_are_listed_in_order_and_sorted() {
    let env = LispEnv::from_hashmap(vec![
        (name("pear"), num(1)),
        (name("apple"), num(2)),
        (name("fig"), num(3)),
        (name("Apple"), num(4)),
        (name("app"), num(5)),
    ]);
    assert_eq!(env.list(), vec!["pear", "apple", "fig", "Apple", "app"]);
    assert_eq!(
        env.sorted_list(),
        vec!["Apple", "app", "apple", "fig", "pear"]
    );
    let inner = env.new_inner_from_parts(vec![(name("b"), num(1)), (name("a"), num(1))], 0);
    assert_eq!(inner.sorted_list(), vec!["a", "b"]);
}

#[test]
fn the_root_environment_names_every_primitive() {
    let env = default_env();
    assert_eq!(env.unsafe_level(), 0);
    assert_eq!(
        env.sorted_list(),
        vec![
            "add", "atom", "car", "cdr", "cons", "eq", "eval", "exit", "false", "fn", "gt", "if",
            "include", "let", "list", "lt", "lua", "macro", "quote", "readf", "spookyAdd", "sub",
            "true", "unsafe"
        ]
    );
    assert_eq!(env.get(&name("exit")), Some(&sym("exit")));
    assert_eq!(env.get(&name("true")), Some(&Value::Bool(true)));
    assert_eq!(env.get(&name("false")), Some(&Value::Bool(false)));
    for (n, b) in [
        ("cons", Builtin::Cons),
        ("car", Builtin::Car),
        ("cdr", Builtin::Cdr),
        ("quote", Builtin::Quote),
        ("eq", Builtin::Eq),
        ("macro", Builtin::Macro),
        ("fn", Builtin::Fn),
        ("if", Builtin::If),
        ("atom", Builtin::Atom),
        ("lt", Builtin::Lt),
        ("gt", Builtin::Gt),
        ("add", Builtin::Add),
        ("sub", Builtin::Sub),
        ("list", Builtin::List),
        ("let", Builtin::Let),
        ("eval", Builtin::Eval),
        ("unsafe", Builtin::Unsafe),
    ] {
        match env.get(&name(n)) {
            Some(Value::Func(found)) => assert_eq!(*found, b),
            other => panic!("{} {:?}", n, other),
        }
    }
    for (n, b) in [
        ("spookyAdd", Builtin::SpookyAdd),
        ("lua", Builtin::Lua),
        ("readf", Builtin::Readf),
        ("include", Builtin::Include),
    ] {
        match env.get(&name(n)) {
            Some(Value::UnsafeFunc(found)) => assert_eq!(*found, b),
            other => panic!("{} {:?}", n, other),
        }
    }
    assert_eq!(LispEnv::default().list().len(), 24);
}

#[test]
fn bind_pairs_names_with_values() {
    let frame = bind(&[sym("a"), sym("b")], &[num(1), num(2)]).unwrap();
    assert_eq!(frame, vec![(name("a"), num(1)), (name("b"), num(2))]);
    // A name that stands twice is bound once, to the last value.
    let frame = bind(&[sym("a"), sym("b"), sym("a")], &[num(1), num(2), num(3)]).unwrap();
    assert_eq!(frame, vec![(name("b"), num(2)), (name("a"), num(3))]);
    assert!(bind(&[], &[]).unwrap().is_empty());
    assert!(matches!(
        bind(&[sym("a"), num(1)], &[num(1), num(2)]),
        Err(EvalError::TypeMismatch)
    ));
    assert!(matches!(
        bind(&[sym("a")], &[num(1), num(2)]),
        Err(EvalError::ArityMismatch)
    ));
    assert!(matches!(
        bind(&[sym("a"), sym("b")], &[num(1)]),
        Err(EvalError::ArityMismatch)
    ));
    // The names are checked first.
    assert!(matches!(
        bind(&[num(1)], &[]),
        Err(EvalError::TypeMismatch)
    ));
}

#[test]
fn new_inner_env_evaluates_the_forms_in_the_calling_frame() {
    let host = Host::new();
    let root = default_env();
    let caller = root.new_inner_from_parts(vec![(name("x"), num(5))], 2);
    let params = parse_string("(a b)").unwrap();
    let forms = vec![
        parse_string("(add x 1)").unwrap(),
        parse_string("'x").unwrap(),
    ];
    let inner = caller.new_inner_env(&params, &forms, &host, DEPTH).unwrap();
    assert_eq!(inner.get(&name("a")), Some(&num(6)));
    assert_eq!(inner.get(&name("b")), Some(&sym("x")));
    assert_eq!(inner.get(&name("x")), Some(&num(5)));
    assert_eq!(inner.list(), vec!["a", "b"]);
    let twice = caller
        .new_inner_env(&parse_string("(a a)").unwrap(), &forms, &host, DEPTH)
        .unwrap();
    assert_eq!(twice.list(), vec!["a"]);
    assert_eq!(twice.get(&name("a")), Some(&sym("x")));
    // The child frame has no privilege.
    assert_eq!(inner.unsafe_level(), 0);
    assert!(matches!(
        caller.new_inner_env(&params, &forms[..1], &host, DEPTH),
        Err(EvalError::ArityMismatch)
    ));
    assert!(matches!(
        caller.new_inner_env(&num(1), &forms, &host, DEPTH),
        Err(EvalError::TypeMismatch)
    ));
    assert!(matches!(
        caller.new_inner_env(&parse_string("(a 1)").unwrap(), &forms, &host, DEPTH),
        Err(EvalError::TypeMismatch)
    ));
    // The parameter list is checked before the count, the count before the
    // forms are evaluated.
    assert!(matches!(
        caller.new_inner_env(&parse_string("(1)").unwrap(), &forms, &host, DEPTH),
        Err(EvalError::TypeMismatch)
    ));
    let failing = vec![parse_string("nope").unwrap()];
    assert!(matches!(
        caller.new_inner_env(&params, &failing, &host, DEPTH),
        Err(EvalError::ArityMismatch)
    ));
    assert!(matches!(
        caller.new_inner_env(&parse_string("(a)").unwrap(), &failing, &host, DEPTH),
        Err(EvalError::UndeclaredSymbol(_))
    ));
}

#[test]
fn new_inner_from_pairs_binds_each_pair() {
    let host = Host::new();
    let root = default_env();
    let pairs = parse_string("((a 1) (b (add 1 1)))").unwrap();
    let inner = root.new_inner_from_pairs(&pairs, &host, DEPTH).unwrap();
    assert_eq!(inner.get(&name("a")), Some(&num(1)));
    assert_eq!(inner.get(&name("b")), Some(&num(2)));
    assert_eq!(inner.unsafe_level(), 0);
    let frame = root.pairs_frame(&pairs, &host, DEPTH).unwrap();
    assert_eq!(frame, vec![(name("a"), num(1)), (name("b"), num(2))]);
    assert_eq!(inner.list(), vec!["a", "b"]);
    let twice = parse_string("((a 1) (b 2) (a 3))").unwrap();
    let inner = root.new_inner_from_pairs(&twice, &host, DEPTH).unwrap();
    assert_eq!(inner.list(), vec!["b", "a"]);
    assert_eq!(inner.get(&name("a")), Some(&num(3)));
    assert!(matches!(
        root.new_inner_from_pairs(&num(1), &host, DEPTH),
        Err(EvalError::MalformedForm)
    ));
    assert!(matches!(
        root.new_inner_from_pairs(&parse_string("((a 1) b)").unwrap(), &host, DEPTH),
        Err(EvalError::MalformedForm)
    ));
    assert!(matches!(
        root.new_inner_from_pairs(&parse_string("((a 1 2))").unwrap(), &host, DEPTH),
        Err(EvalError::MalformedForm)
    ));
    assert!(matches!(
        root.new_inner_from_pairs(&parse_string("((7 1))").unwrap(), &host, DEPTH),
        Err(EvalError::TypeMismatch)
    ));
}

#[test]
fn forms_are_evaluated_to_values_integers_and_symbols() {
    let host = Host::new();
    let env = default_env();
    let forms = vec![
        parse_string("(add 1 2)").unwrap(),
        parse_string("4").unwrap(),
    ];
    assert_eq!(
        env.eval_forms(&forms, &host, DEPTH).unwrap(),
        vec![num(3), num(4)]
    );
    assert_eq!(env.eval_integers(&forms, &host, DEPTH).unwrap(), vec![3, 4]);
    assert!(matches!(
        env.eval_symbols(&forms, &host, DEPTH),
        Err(EvalError::TypeMismatch)
    ));
    let names = vec![parse_string("'a").unwrap(), parse_string("exit").unwrap()];
    assert_eq!(
        env.eval_symbols(&names, &host, DEPTH).unwrap(),
        vec![name("a"), name("exit")]
    );
    assert!(matches!(
        env.eval_integers(&names, &host, DEPTH),
        Err(EvalError::TypeMismatch)
    ));
    assert!(env.eval_forms(&[], &host, DEPTH).unwrap().is_empty());
}

#[test]
fn apply_gates_privileged_primitives() {
    let host = Host::new();
    let env = default_env();
    let args = vec![num(1), num(2)];
    assert!(matches!(
        env.apply(&Value::UnsafeFunc(Builtin::SpookyAdd), &args, &host, DEPTH),
        Err(EvalError::PrivilegeDenied)
    ));
    let unsafer = env.new_unsafer_env();
    assert_eq!(
        unsafer
            .apply(&Value::UnsafeFunc(Builtin::SpookyAdd), &args, &host, DEPTH)
            .unwrap(),
        num(3)
    );
    // Any primitive can be marked as privileged.
    assert!(matches!(
        env.apply(&Value::UnsafeFunc(Builtin::Add), &args, &host, DEPTH),
        Err(EvalError::PrivilegeDenied)
    ));
    assert_eq!(
        env.apply(&Value::Func(Builtin::Add), &args, &host, DEPTH)
            .unwrap(),
        num(3)
    );
    assert!(matches!(
        env.apply(&num(1), &args, &host, DEPTH),
        Err(EvalError::NotCallable)
    ));
    assert!(matches!(
        env.outer_apply(&sym("a"), &args, &host, DEPTH),
        Err(EvalError::NotCallable)
    ));
    let m = env
        .eval(&parse_string("(macro (a b) (add a b))").unwrap(), &host, DEPTH)
        .unwrap();
    // A macro is expanded by a call, never applied.
    assert!(matches!(
        env.apply(&m, &args, &host, DEPTH),
        Err(EvalError::Unimplemented)
    ));
    assert_eq!(env.outer_apply(&m, &args, &host, DEPTH).unwrap(), num(3));
}

#[test]
fn helpers_of_the_privileged_primitives() {
    assert_eq!(get_lua_lib_filename(&name("core")), "src/core.lua");
    assert_eq!(library_path_of(&[name("std")]), "lisb/std.l");
    assert_eq!(library_path_of(&[name("a"), name("b")]), "lisb/a.b");
    assert_eq!(
        library_path_of(&[name("d"), name("a"), name("b")]),
        "d/a.b"
    );
    assert_eq!(
        script_result_of(Some(-1)),
        Value::List(vec![num(-1), sym("unimplemented")])
    );
    assert_eq!(
        script_result_of(None),
        Value::List(vec![Value::nil(), sym("unimplemented")])
    );
    assert_eq!(
        include_form_of(&sym("lib"), &num(1)),
        parse_string("(let (readf lib) 1)").unwrap()
    );
    assert_eq!(wrapping_total(&[]), 0);
    assert_eq!(wrapping_total(&[1, 2, 3]), 6);
    assert_eq!(wrapping_total(&[i64::MAX, 1]), i64::MIN);
    assert_eq!(wrapping_total(&[i64::MIN, -1, 1]), i64::MIN);
}
