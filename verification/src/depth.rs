//! The depth bound is only a bound: where an evaluation does not run out of
//! depth, allowing it more depth changes nothing.

use vstd::prelude::*;
use crate::env::{raised, Scope};
use crate::semantics::{
    extend,
    include_form,
    spec_apply,
    spec_builtin,
    spec_call,
    spec_delegated,
    spec_eval_forms,
    spec_inner_frame,
    spec_integers,
    spec_macro_eval,
    spec_macro_eval_all,
    spec_macro_expand,
    spec_pairs,
    spec_pairs_frame,
    spec_substitute,
    spec_symbols,
    Fault,
    HostModel,
    Strategy,
};
use crate::value::{Builtin, Term};

verus! {

/// Whether a result is the failure of having run out of depth.
pub open spec fn out_of_depth<T>(r: Result<T, Fault>) -> bool {
    r == Err::<T, Fault>(Fault::DepthExceeded)
}

/// More depth does not change an expansion that did not run out of depth.
proof fn lemma_macro_eval_depth(t: Term, bindings: Seq<(Seq<char>, Term)>, d1: nat, d2: nat)
    requires
        d1 <= d2,
    ensures
        !out_of_depth(spec_macro_eval(t, bindings, d1)) ==> spec_macro_eval(t, bindings, d2)
            == spec_macro_eval(t, bindings, d1),
    decreases d1, 1nat, t,
{
    match t {
        Term::List(l) => {
            if l.len() > 0 {
                match crate::semantics::macro_at_head(l[0], bindings) {
                    Some(m) => {
                        lemma_macro_expand_depth(
                            m->Macro_params,
                            *m->Macro_body,
                            l.skip(1),
                            bindings,
                            d1,
                            d2,
                        );
                    },
                    None => {
                        lemma_macro_eval_all_depth(l, Seq::empty(), bindings, d1, d2);
                    },
                }
            }
        },
        _ => {},
    }
}

/// The same for the expansion of a sequence of forms.
proof fn lemma_macro_eval_all_depth(
    items: Seq<Term>,
    done: Seq<Term>,
    bindings: Seq<(Seq<char>, Term)>,
    d1: nat,
    d2: nat,
)
    requires
        d1 <= d2,
    ensures
        !out_of_depth(spec_macro_eval_all(items, done, bindings, d1)) ==> spec_macro_eval_all(
            items,
            done,
            bindings,
            d2,
        ) == spec_macro_eval_all(items, done, bindings, d1),
    decreases d1, 1nat, items,
{
    if items.len() > 0 {
        lemma_macro_eval_depth(items[0], bindings, d1, d2);
        match spec_macro_eval(items[0], bindings, d1) {
            Ok(t) => lemma_macro_eval_all_depth(items.skip(1), done.push(t), bindings, d1, d2),
            Err(_) => {},
        }
    }
}

/// The same for the expansion of one invocation.
proof fn lemma_macro_expand_depth(
    params: Seq<Term>,
    body: Term,
    args: Seq<Term>,
    bindings: Seq<(Seq<char>, Term)>,
    d1: nat,
    d2: nat,
)
    requires
        d1 <= d2,
    ensures
        !out_of_depth(spec_macro_expand(params, body, args, bindings, d1)) ==> spec_macro_expand(
            params,
            body,
            args,
            bindings,
            d2,
        ) == spec_macro_expand(params, body, args, bindings, d1),
    decreases d1, 0nat, body,
{
    if params.len() == args.len() && d1 > 0 {
        match spec_substitute(body, params, args) {
            Ok(expansion) => lemma_macro_eval_depth(
                expansion,
                bindings,
                (d1 - 1) as nat,
                (d2 - 1) as nat,
            ),
            Err(_) => {},
        }
    }
}

/// More depth does not change an evaluation or reduction that did not run
/// out of depth.
proof fn lemma_delegated_depth(
    strategy: Strategy,
    t: Term,
    sc: Scope,
    host: HostModel,
    d1: nat,
    d2: nat,
)
    requires
        d1 <= d2,
    ensures
        !out_of_depth(spec_delegated(strategy, t, sc, host, d1)) ==> spec_delegated(
            strategy,
            t,
            sc,
            host,
            d2,
        ) == spec_delegated(strategy, t, sc, host, d1),
    decreases d1, 0nat, 0nat,
{
    match t {
        Term::List(l) => {
            if l.len() > 0 && d1 > 0 {
                let e1 = (d1 - 1) as nat;
                let e2 = (d2 - 1) as nat;
                lemma_delegated_depth(strategy, l[0], sc, host, e1, e2);
                match spec_delegated(strategy, l[0], sc, host, e1) {
                    Ok(f) => lemma_call_depth(f, l.skip(1), sc, host, e1, e2),
                    Err(_) => {},
                }
            }
        },
        _ => {},
    }
}

/// The same for a call.
proof fn lemma_call_depth(
    f: Term,
    args: Seq<Term>,
    sc: Scope,
    host: HostModel,
    d1: nat,
    d2: nat,
)
    requires
        d1 <= d2,
    ensures
        !out_of_depth(spec_call(f, args, sc, host, d1)) ==> spec_call(f, args, sc, host, d2)
            == spec_call(f, args, sc, host, d1),
    decreases d1, 4nat, 0nat,
{
    match f {
        Term::Macro { params, body } => {
            lemma_macro_expand_depth(params, *body, args, sc.bindings, d1, d2);
            match spec_macro_expand(params, *body, args, sc.bindings, d1) {
                Ok(expansion) => lemma_delegated_depth(
                    Strategy::Eval,
                    expansion,
                    sc,
                    host,
                    d1,
                    d2,
                ),
                Err(_) => {},
            }
        },
        Term::Func(_) | Term::UnsafeFunc(_) | Term::Lambda { .. } => {
            lemma_apply_depth(f, args, sc, host, d1, d2);
        },
        _ => {},
    }
}

/// The same for an application.
proof fn lemma_apply_depth(
    f: Term,
    args: Seq<Term>,
    sc: Scope,
    host: HostModel,
    d1: nat,
    d2: nat,
)
    requires
        d1 <= d2,
    ensures
        !out_of_depth(spec_apply(f, args, sc, host, d1)) ==> spec_apply(f, args, sc, host, d2)
            == spec_apply(f, args, sc, host, d1),
    decreases d1, 3nat, 0nat,
{
    match f {
        Term::Func(b) => lemma_builtin_depth(b, args, sc, host, d1, d2),
        Term::UnsafeFunc(b) => lemma_builtin_depth(b, args, sc, host, d1, d2),
        Term::Lambda { args: params, body, closure } => {
            lemma_inner_frame_depth(*params, args, sc, host, d1, d2);
            match spec_inner_frame(*params, args, sc, host, d1) {
                Ok(frame) => lemma_delegated_depth(
                    Strategy::Eval,
                    *body,
                    extend(extend(sc, frame, 0), closure, sc.unsafe_level),
                    host,
                    d1,
                    d2,
                ),
                Err(_) => {},
            }
        },
        _ => {},
    }
}

/// The same for the evaluation of a sequence of forms.
proof fn lemma_eval_forms_depth(
    forms: Seq<Term>,
    done: Seq<Term>,
    sc: Scope,
    host: HostModel,
    d1: nat,
    d2: nat,
)
    requires
        d1 <= d2,
    ensures
        !out_of_depth(spec_eval_forms(forms, done, sc, host, d1)) ==> spec_eval_forms(
            forms,
            done,
            sc,
            host,
            d2,
        ) == spec_eval_forms(forms, done, sc, host, d1),
    decreases d1, 1nat, forms.len(),
{
    if forms.len() > 0 {
        lemma_delegated_depth(Strategy::Eval, forms[0], sc, host, d1, d2);
        match spec_delegated(Strategy::Eval, forms[0], sc, host, d1) {
            Ok(v) => lemma_eval_forms_depth(forms.skip(1), done.push(v), sc, host, d1, d2),
            Err(_) => {},
        }
    }
}

/// The same for the evaluation of forms to integers.
proof fn lemma_integers_depth(
    forms: Seq<Term>,
    done: Seq<i64>,
    sc: Scope,
    host: HostModel,
    d1: nat,
    d2: nat,
)
    requires
        d1 <= d2,
    ensures
        !out_of_depth(spec_integers(forms, done, sc, host, d1)) ==> spec_integers(
            forms,
            done,
            sc,
            host,
            d2,
        ) == spec_integers(forms, done, sc, host, d1),
    decreases d1, 1nat, forms.len(),
{
    if forms.len() > 0 {
        lemma_delegated_depth(Strategy::Eval, forms[0], sc, host, d1, d2);
        match spec_delegated(Strategy::Eval, forms[0], sc, host, d1) {
            Ok(v) => if v is Integer {
                lemma_integers_depth(forms.skip(1), done.push(v->Integer_0), sc, host, d1, d2)
            },
            Err(_) => {},
        }
    }
}

/// The same for the evaluation of forms to symbols.
proof fn lemma_symbols_depth(
    forms: Seq<Term>,
    done: Seq<Seq<char>>,
    sc: Scope,
    host: HostModel,
    d1: nat,
    d2: nat,
)
    requires
        d1 <= d2,
    ensures
        !out_of_depth(spec_symbols(forms, done, sc, host, d1)) ==> spec_symbols(
            forms,
            done,
            sc,
            host,
            d2,
        ) == spec_symbols(forms, done, sc, host, d1),
    decreases d1, 1nat, forms.len(),
{
    if forms.len() > 0 {
        lemma_delegated_depth(Strategy::Eval, forms[0], sc, host, d1, d2);
        match spec_delegated(Strategy::Eval, forms[0], sc, host, d1) {
            Ok(v) => if v is Symbol {
                lemma_symbols_depth(forms.skip(1), done.push(v->Symbol_0), sc, host, d1, d2)
            },
            Err(_) => {},
        }
    }
}

/// The same for the evaluation of `(name value)` pairs.
proof fn lemma_pairs_depth(
    pairs: Seq<Term>,
    names: Seq<Term>,
    values: Seq<Term>,
    sc: Scope,
    host: HostModel,
    d1: nat,
    d2: nat,
)
    requires
        d1 <= d2,
    ensures
        !out_of_depth(spec_pairs(pairs, names, values, sc, host, d1)) ==> spec_pairs(
            pairs,
            names,
            values,
            sc,
            host,
            d2,
        ) == spec_pairs(pairs, names, values, sc, host, d1),
    decreases d1, 1nat, pairs.len(),
{
    if pairs.len() > 0 {
        match pairs[0] {
            Term::List(pair) => {
                if pair.len() == 2 {
                    lemma_delegated_depth(Strategy::Eval, pair[1], sc, host, d1, d2);
                    match spec_delegated(Strategy::Eval, pair[1], sc, host, d1) {
                        Ok(v) => lemma_pairs_depth(
                            pairs.skip(1),
                            names.push(pair[0]),
                            values.push(v),
                            sc,
                            host,
                            d1,
                            d2,
                        ),
                        Err(_) => {},
                    }
                }
            },
            _ => {},
        }
    }
}

/// The same for the frame of a list of pairs.
proof fn lemma_pairs_frame_depth(
    pairs: Term,
    sc: Scope,
    host: HostModel,
    d1: nat,
    d2: nat,
)
    requires
        d1 <= d2,
    ensures
        !out_of_depth(spec_pairs_frame(pairs, sc, host, d1)) ==> spec_pairs_frame(
            pairs,
            sc,
            host,
            d2,
        ) == spec_pairs_frame(pairs, sc, host, d1),
    decreases d1, 2nat, 0nat,
{
    match pairs {
        Term::List(l) => lemma_pairs_depth(l, Seq::empty(), Seq::empty(), sc, host, d1, d2),
        _ => {},
    }
}

/// The same for the frame of a call.
proof fn lemma_inner_frame_depth(
    params: Term,
    forms: Seq<Term>,
    sc: Scope,
    host: HostModel,
    d1: nat,
    d2: nat,
)
    requires
        d1 <= d2,
    ensures
        !out_of_depth(spec_inner_frame(params, forms, sc, host, d1)) ==> spec_inner_frame(
            params,
            forms,
            sc,
            host,
            d2,
        ) == spec_inner_frame(params, forms, sc, host, d1),
    decreases d1, 2nat, 0nat,
{
    lemma_eval_forms_depth(forms, Seq::empty(), sc, host, d1, d2);
}

/// The same for a primitive.
proof fn lemma_builtin_depth(
    b: Builtin,
    args: Seq<Term>,
    sc: Scope,
    host: HostModel,
    d1: nat,
    d2: nat,
)
    requires
        d1 <= d2,
    ensures
        !out_of_depth(spec_builtin(b, args, sc, host, d1)) ==> spec_builtin(b, args, sc, host, d2)
            == spec_builtin(b, args, sc, host, d1),
    decreases d1, 2nat, 1nat,
{
    match b {
        Builtin::Cons | Builtin::Eq | Builtin::List => {
            lemma_eval_forms_depth(args, Seq::empty(), sc, host, d1, d2);
        },
        Builtin::Car | Builtin::Cdr | Builtin::Atom => {
            if args.len() == 1 {
                lemma_delegated_depth(Strategy::Eval, args[0], sc, host, d1, d2);
            }
        },
        Builtin::Quote | Builtin::Macro | Builtin::Fn => {},
        Builtin::If => {
            if args.len() == 3 {
                lemma_delegated_depth(Strategy::Eval, args[0], sc, host, d1, d2);
                lemma_delegated_depth(Strategy::Eval, args[1], sc, host, d1, d2);
                lemma_delegated_depth(Strategy::Eval, args[2], sc, host, d1, d2);
            }
        },
        Builtin::Lt | Builtin::Gt | Builtin::Add | Builtin::Sub | Builtin::SpookyAdd => {
            lemma_integers_depth(args, Seq::empty(), sc, host, d1, d2);
        },
        Builtin::Let => {
            if args.len() == 2 {
                lemma_delegated_depth(Strategy::Eval, args[0], sc, host, d1, d2);
                match spec_delegated(Strategy::Eval, args[0], sc, host, d1) {
                    Ok(pairs) => {
                        lemma_pairs_frame_depth(pairs, sc, host, d1, d2);
                        match spec_pairs_frame(pairs, sc, host, d1) {
                            Ok(frame) => lemma_delegated_depth(
                                Strategy::Eval,
                                args[1],
                                extend(sc, frame, 0),
                                host,
                                d1,
                                d2,
                            ),
                            Err(_) => {},
                        }
                    },
                    Err(_) => {},
                }
            }
        },
        Builtin::Eval => {
            if args.len() == 1 {
                lemma_delegated_depth(Strategy::Eval, args[0], sc, host, d1, d2);
                match spec_delegated(Strategy::Eval, args[0], sc, host, d1) {
                    Ok(form) => lemma_delegated_depth(Strategy::Eval, form, sc, host, d1, d2),
                    Err(_) => {},
                }
            }
        },
        Builtin::Unsafe => {
            if args.len() == 1 {
                lemma_delegated_depth(
                    Strategy::Eval,
                    args[0],
                    Scope { bindings: sc.bindings, unsafe_level: raised(sc.unsafe_level) },
                    host,
                    d1,
                    d2,
                );
            }
        },
        Builtin::Lua | Builtin::Readf => {
            lemma_symbols_depth(args, Seq::empty(), sc, host, d1, d2);
        },
        Builtin::Include => {
            if args.len() == 2 {
                lemma_delegated_depth(
                    Strategy::Eval,
                    include_form(args[0], args[1]),
                    sc,
                    host,
                    d1,
                    d2,
                );
            }
        },
    }
}

/// Where an evaluation or reduction did not run out of depth, it gives the
/// same result at every greater depth: the depth is a bound and nothing else.
pub proof fn law_more_depth_changes_nothing(
    strategy: Strategy,
    t: Term,
    sc: Scope,
    host: HostModel,
    d1: nat,
    d2: nat,
)
    requires
        d1 <= d2,
        !out_of_depth(spec_delegated(strategy, t, sc, host, d1)),
    ensures
        spec_delegated(strategy, t, sc, host, d2) == spec_delegated(strategy, t, sc, host, d1),
{
    lemma_delegated_depth(strategy, t, sc, host, d1, d2);
}

/// Where the expansion pass did not run out of depth, it gives the same
/// result at every greater depth.
pub proof fn law_more_depth_expands_the_same(
    t: Term,
    bindings: Seq<(Seq<char>, Term)>,
    d1: nat,
    d2: nat,
)
    requires
        d1 <= d2,
        !out_of_depth(spec_macro_eval(t, bindings, d1)),
    ensures
        spec_macro_eval(t, bindings, d2) == spec_macro_eval(t, bindings, d1),
{
    lemma_macro_eval_depth(t, bindings, d1, d2);
}

} // verus!
