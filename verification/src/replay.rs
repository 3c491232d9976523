//! Evaluating again with a fuller host record: where an evaluation asked the
//! host for nothing, recording more outside work changes nothing.

use vstd::prelude::*;
use crate::env::{lookup, raised, Scope};
use crate::semantics::{
    extend,
    include_form,
    library_path,
    script_path,
    spec_apply,
    spec_builtin,
    spec_call,
    spec_delegated,
    spec_eval_forms,
    spec_inner_frame,
    spec_integers,
    spec_macro_expand,
    spec_pairs,
    spec_pairs_frame,
    spec_symbols,
    Fault,
    HostModel,
    Strategy,
};
use crate::value::{Builtin, Term};

verus! {

/// Whether a result is a request for outside work.
pub open spec fn asks_host<T>(r: Result<T, Fault>) -> bool {
    match r {
        Err(Fault::NeedsFile(_)) => true,
        Err(Fault::NeedsScript(_)) => true,
        _ => false,
    }
}

/// Whether `h2` holds every record that `h1` holds, with the same answer.
pub open spec fn host_extends(h1: HostModel, h2: HostModel) -> bool {
    &&& forall|path: Seq<char>| #[trigger]
        lookup(h1.files, path) is Some ==> lookup(h2.files, path) == lookup(h1.files, path)
    &&& forall|path: Seq<char>| #[trigger]
        lookup(h1.scripts, path) is Some ==> lookup(h2.scripts, path) == lookup(h1.scripts, path)
}

/// Recording the contents of a file that the record did not hold gives a
/// fuller record, and so does recording the status of a script that it did
/// not hold.
pub proof fn law_recording_extends(
    h: HostModel,
    path: Seq<char>,
    text: Seq<char>,
    status: Option<i32>,
)
    ensures
        lookup(h.files, path) is None ==> host_extends(
            h,
            HostModel { files: h.files.push((path, text)), ..h },
        ),
        lookup(h.scripts, path) is None ==> host_extends(
            h,
            HostModel { scripts: h.scripts.push((path, status)), ..h },
        ),
        host_extends(h, h),
{
    assert(h.files.push((path, text)).drop_last() =~= h.files);
    assert(h.scripts.push((path, status)).drop_last() =~= h.scripts);
}

/// `readf` asks for the contents of a file exactly where the host record
/// does not hold them, and `lua` for the status of a script exactly where the
/// record does not hold it: handing the answer in gives a fuller record.
pub proof fn law_requests_are_for_what_is_missing(
    args: Seq<Term>,
    names: Seq<Seq<char>>,
    sc: Scope,
    h: HostModel,
    depth: nat,
)
    requires
        spec_symbols(args, Seq::empty(), sc, h, depth) == Ok::<Seq<Seq<char>>, Fault>(names),
    ensures
        1 <= args.len() <= 3 ==> (lookup(h.files, library_path(names)) is None <==> spec_builtin(
            Builtin::Readf,
            args,
            sc,
            h,
            depth,
        ) == Err::<Term, Fault>(Fault::NeedsFile(library_path(names)))),
        args.len() == 1 ==> (lookup(h.scripts, script_path(names[0])) is None <==> spec_builtin(
            Builtin::Lua,
            args,
            sc,
            h,
            depth,
        ) == Err::<Term, Fault>(Fault::NeedsScript(script_path(names[0])))),
{
}

/// A fuller host record does not change an evaluation or reduction that
/// asked for nothing.
proof fn lemma_delegated_host(
    strategy: Strategy,
    t: Term,
    sc: Scope,
    h1: HostModel,
    h2: HostModel,
    depth: nat,
)
    requires
        host_extends(h1, h2),
    ensures
        !asks_host(spec_delegated(strategy, t, sc, h1, depth)) ==> spec_delegated(
            strategy,
            t,
            sc,
            h2,
            depth,
        ) == spec_delegated(strategy, t, sc, h1, depth),
    decreases depth, 0nat, 0nat,
{
    match t {
        Term::List(l) => {
            if l.len() > 0 && depth > 0 {
                lemma_delegated_host(strategy, l[0], sc, h1, h2, (depth - 1) as nat);
                match spec_delegated(strategy, l[0], sc, h1, (depth - 1) as nat) {
                    Ok(f) => lemma_call_host(f, l.skip(1), sc, h1, h2, (depth - 1) as nat),
                    Err(_) => {},
                }
            }
        },
        _ => {},
    }
}

/// The same for a call.
proof fn lemma_call_host(
    f: Term,
    args: Seq<Term>,
    sc: Scope,
    h1: HostModel,
    h2: HostModel,
    depth: nat,
)
    requires
        host_extends(h1, h2),
    ensures
        !asks_host(spec_call(f, args, sc, h1, depth)) ==> spec_call(f, args, sc, h2, depth)
            == spec_call(f, args, sc, h1, depth),
    decreases depth, 4nat, 0nat,
{
    match f {
        Term::Macro { params, body } => {
            match spec_macro_expand(params, *body, args, sc.bindings, depth) {
                Ok(expansion) => lemma_delegated_host(
                    Strategy::Eval,
                    expansion,
                    sc,
                    h1,
                    h2,
                    depth,
                ),
                Err(_) => {},
            }
        },
        Term::Func(_) | Term::UnsafeFunc(_) | Term::Lambda { .. } => {
            lemma_apply_host(f, args, sc, h1, h2, depth);
        },
        _ => {},
    }
}

/// The same for an application.
proof fn lemma_apply_host(
    f: Term,
    args: Seq<Term>,
    sc: Scope,
    h1: HostModel,
    h2: HostModel,
    depth: nat,
)
    requires
        host_extends(h1, h2),
    ensures
        !asks_host(spec_apply(f, args, sc, h1, depth)) ==> spec_apply(f, args, sc, h2, depth)
            == spec_apply(f, args, sc, h1, depth),
    decreases depth, 3nat, 0nat,
{
    match f {
        Term::Func(b) => lemma_builtin_host(b, args, sc, h1, h2, depth),
        Term::UnsafeFunc(b) => lemma_builtin_host(b, args, sc, h1, h2, depth),
        Term::Lambda { args: params, body, closure } => {
            lemma_inner_frame_host(*params, args, sc, h1, h2, depth);
            match spec_inner_frame(*params, args, sc, h1, depth) {
                Ok(frame) => lemma_delegated_host(
                    Strategy::Eval,
                    *body,
                    extend(extend(sc, frame, 0), closure, sc.unsafe_level),
                    h1,
                    h2,
                    depth,
                ),
                Err(_) => {},
            }
        },
        _ => {},
    }
}

/// The same for the evaluation of a sequence of forms.
proof fn lemma_eval_forms_host(
    forms: Seq<Term>,
    done: Seq<Term>,
    sc: Scope,
    h1: HostModel,
    h2: HostModel,
    depth: nat,
)
    requires
        host_extends(h1, h2),
    ensures
        !asks_host(spec_eval_forms(forms, done, sc, h1, depth)) ==> spec_eval_forms(
            forms,
            done,
            sc,
            h2,
            depth,
        ) == spec_eval_forms(forms, done, sc, h1, depth),
    decreases depth, 1nat, forms.len(),
{
    if forms.len() > 0 {
        lemma_delegated_host(Strategy::Eval, forms[0], sc, h1, h2, depth);
        match spec_delegated(Strategy::Eval, forms[0], sc, h1, depth) {
            Ok(v) => lemma_eval_forms_host(forms.skip(1), done.push(v), sc, h1, h2, depth),
            Err(_) => {},
        }
    }
}

/// The same for the evaluation of forms to integers.
proof fn lemma_integers_host(
    forms: Seq<Term>,
    done: Seq<i64>,
    sc: Scope,
    h1: HostModel,
    h2: HostModel,
    depth: nat,
)
    requires
        host_extends(h1, h2),
    ensures
        !asks_host(spec_integers(forms, done, sc, h1, depth)) ==> spec_integers(
            forms,
            done,
            sc,
            h2,
            depth,
        ) == spec_integers(forms, done, sc, h1, depth),
    decreases depth, 1nat, forms.len(),
{
    if forms.len() > 0 {
        lemma_delegated_host(Strategy::Eval, forms[0], sc, h1, h2, depth);
        match spec_delegated(Strategy::Eval, forms[0], sc, h1, depth) {
            Ok(v) => if v is Integer {
                lemma_integers_host(forms.skip(1), done.push(v->Integer_0), sc, h1, h2, depth)
            },
            Err(_) => {},
        }
    }
}

/// The same for the evaluation of forms to symbols.
proof fn lemma_symbols_host(
    forms: Seq<Term>,
    done: Seq<Seq<char>>,
    sc: Scope,
    h1: HostModel,
    h2: HostModel,
    depth: nat,
)
    requires
        host_extends(h1, h2),
    ensures
        !asks_host(spec_symbols(forms, done, sc, h1, depth)) ==> spec_symbols(
            forms,
            done,
            sc,
            h2,
            depth,
        ) == spec_symbols(forms, done, sc, h1, depth),
    decreases depth, 1nat, forms.len(),
{
    if forms.len() > 0 {
        lemma_delegated_host(Strategy::Eval, forms[0], sc, h1, h2, depth);
        match spec_delegated(Strategy::Eval, forms[0], sc, h1, depth) {
            Ok(v) => if v is Symbol {
                lemma_symbols_host(forms.skip(1), done.push(v->Symbol_0), sc, h1, h2, depth)
            },
            Err(_) => {},
        }
    }
}

/// The same for the evaluation of `(name value)` pairs.
proof fn lemma_pairs_host(
    pairs: Seq<Term>,
    names: Seq<Term>,
    values: Seq<Term>,
    sc: Scope,
    h1: HostModel,
    h2: HostModel,
    depth: nat,
)
    requires
        host_extends(h1, h2),
    ensures
        !asks_host(spec_pairs(pairs, names, values, sc, h1, depth)) ==> spec_pairs(
            pairs,
            names,
            values,
            sc,
            h2,
            depth,
        ) == spec_pairs(pairs, names, values, sc, h1, depth),
    decreases depth, 1nat, pairs.len(),
{
    if pairs.len() > 0 {
        match pairs[0] {
            Term::List(pair) => {
                if pair.len() == 2 {
                    lemma_delegated_host(Strategy::Eval, pair[1], sc, h1, h2, depth);
                    match spec_delegated(Strategy::Eval, pair[1], sc, h1, depth) {
                        Ok(v) => lemma_pairs_host(
                            pairs.skip(1),
                            names.push(pair[0]),
                            values.push(v),
                            sc,
                            h1,
                            h2,
                            depth,
                        ),
                        Err(_) => {},
                    }
                }
            },
            _ => {},
        }
    }
}

/// The same for the frame of a list of pairs.
proof fn lemma_pairs_frame_host(
    pairs: Term,
    sc: Scope,
    h1: HostModel,
    h2: HostModel,
    depth: nat,
)
    requires
        host_extends(h1, h2),
    ensures
        !asks_host(spec_pairs_frame(pairs, sc, h1, depth)) ==> spec_pairs_frame(
            pairs,
            sc,
            h2,
            depth,
        ) == spec_pairs_frame(pairs, sc, h1, depth),
    decreases depth, 2nat, 0nat,
{
    match pairs {
        Term::List(l) => lemma_pairs_host(l, Seq::empty(), Seq::empty(), sc, h1, h2, depth),
        _ => {},
    }
}

/// The same for the frame of a call.
proof fn lemma_inner_frame_host(
    params: Term,
    forms: Seq<Term>,
    sc: Scope,
    h1: HostModel,
    h2: HostModel,
    depth: nat,
)
    requires
        host_extends(h1, h2),
    ensures
        !asks_host(spec_inner_frame(params, forms, sc, h1, depth)) ==> spec_inner_frame(
            params,
            forms,
            sc,
            h2,
            depth,
        ) == spec_inner_frame(params, forms, sc, h1, depth),
    decreases depth, 2nat, 0nat,
{
    lemma_eval_forms_host(forms, Seq::empty(), sc, h1, h2, depth);
}

/// The same for a primitive.
proof fn lemma_builtin_host(
    b: Builtin,
    args: Seq<Term>,
    sc: Scope,
    h1: HostModel,
    h2: HostModel,
    depth: nat,
)
    requires
        host_extends(h1, h2),
    ensures
        !asks_host(spec_builtin(b, args, sc, h1, depth)) ==> spec_builtin(b, args, sc, h2, depth)
            == spec_builtin(b, args, sc, h1, depth),
    decreases depth, 2nat, 1nat,
{
    match b {
        Builtin::Cons | Builtin::Eq | Builtin::List => {
            lemma_eval_forms_host(args, Seq::empty(), sc, h1, h2, depth);
        },
        Builtin::Car | Builtin::Cdr | Builtin::Atom => {
            if args.len() == 1 {
                lemma_delegated_host(Strategy::Eval, args[0], sc, h1, h2, depth);
            }
        },
        Builtin::Quote | Builtin::Macro | Builtin::Fn => {},
        Builtin::If => {
            if args.len() == 3 {
                lemma_delegated_host(Strategy::Eval, args[0], sc, h1, h2, depth);
                lemma_delegated_host(Strategy::Eval, args[1], sc, h1, h2, depth);
                lemma_delegated_host(Strategy::Eval, args[2], sc, h1, h2, depth);
            }
        },
        Builtin::Lt | Builtin::Gt | Builtin::Add | Builtin::Sub | Builtin::SpookyAdd => {
            lemma_integers_host(args, Seq::empty(), sc, h1, h2, depth);
        },
        Builtin::Let => {
            if args.len() == 2 {
                lemma_delegated_host(Strategy::Eval, args[0], sc, h1, h2, depth);
                match spec_delegated(Strategy::Eval, args[0], sc, h1, depth) {
                    Ok(pairs) => {
                        lemma_pairs_frame_host(pairs, sc, h1, h2, depth);
                        match spec_pairs_frame(pairs, sc, h1, depth) {
                            Ok(frame) => lemma_delegated_host(
                                Strategy::Eval,
                                args[1],
                                extend(sc, frame, 0),
                                h1,
                                h2,
                                depth,
                            ),
                            Err(_) => {},
                        }
                    },
                    Err(_) => {},
                }
            }
        },
        Builtin::Eval => {
            if args.len() == 1 {
                lemma_delegated_host(Strategy::Eval, args[0], sc, h1, h2, depth);
                match spec_delegated(Strategy::Eval, args[0], sc, h1, depth) {
                    Ok(form) => lemma_delegated_host(Strategy::Eval, form, sc, h1, h2, depth),
                    Err(_) => {},
                }
            }
        },
        Builtin::Unsafe => {
            if args.len() == 1 {
                lemma_delegated_host(
                    Strategy::Eval,
                    args[0],
                    Scope { bindings: sc.bindings, unsafe_level: raised(sc.unsafe_level) },
                    h1,
                    h2,
                    depth,
                );
            }
        },
        Builtin::Lua | Builtin::Readf => {
            lemma_symbols_host(args, Seq::empty(), sc, h1, h2, depth);
        },
        Builtin::Include => {
            if args.len() == 2 {
                lemma_delegated_host(
                    Strategy::Eval,
                    include_form(args[0], args[1]),
                    sc,
                    h1,
                    h2,
                    depth,
                );
            }
        },
    }
}


/// Where an evaluation or reduction asked the host for nothing, it gives the
/// same result with every fuller host record.
pub proof fn law_fuller_record_changes_nothing(
    strategy: Strategy,
    t: Term,
    sc: Scope,
    h1: HostModel,
    h2: HostModel,
    depth: nat,
)
    requires
        host_extends(h1, h2),
        !asks_host(spec_delegated(strategy, t, sc, h1, depth)),
    ensures
        spec_delegated(strategy, t, sc, h2, depth) == spec_delegated(strategy, t, sc, h1, depth),
{
    lemma_delegated_host(strategy, t, sc, h1, h2, depth);
}

} // verus!
