//! What holds of the semantics for all terms and scopes.

use vstd::prelude::*;
use crate::env::{lookup, raised, Scope};
use crate::semantics::{
    spec_apply,
    spec_builtin,
    spec_call,
    spec_delegated,
    spec_eval,
    spec_reduce,
    spec_substitute,
    Fault,
    HostModel,
    Strategy,
};
use crate::value::{nil_term, term_eq, Builtin, Term};

verus! {

/// Whether no symbol on the chain of heads of `t` is unbound. The chain of
/// heads is `t` itself, then the head of `t` where `t` is a call, then the
/// head of that, and so on.
pub open spec fn heads_bound(t: Term, sc: Scope) -> bool
    decreases t,
{
    match t {
        Term::Symbol(s) => lookup(sc.bindings, s) is Some,
        Term::List(l) => l.len() == 0 || heads_bound(l[0], sc),
        _ => true,
    }
}

/// Whether no call on the chain of heads of `t` is a call of a privileged
/// primitive, as far as the depth lets evaluation go.
pub open spec fn no_privileged_call(t: Term, sc: Scope, host: HostModel, depth: nat) -> bool
    decreases t,
{
    match t {
        Term::List(l) => l.len() == 0 || depth == 0 || (no_privileged_call(
            l[0],
            sc,
            host,
            (depth - 1) as nat,
        ) && !(spec_eval(l[0], sc, host, (depth - 1) as nat) matches Ok(Term::UnsafeFunc(_)))),
        _ => true,
    }
}

/// Reduction and evaluation give the same result for every expression that
/// calls no privileged primitive and whose heads name no unbound symbol.
pub proof fn law_reduce_agrees_with_eval(t: Term, sc: Scope, host: HostModel, depth: nat)
    requires
        heads_bound(t, sc),
        no_privileged_call(t, sc, host, depth),
    ensures
        spec_reduce(t, sc, host, depth) == spec_eval(t, sc, host, depth),
    decreases t,
{
    match t {
        Term::List(l) => {
            if l.len() > 0 && depth > 0 {
                law_reduce_agrees_with_eval(l[0], sc, host, (depth - 1) as nat);
            }
        },
        _ => {},
    }
}

/// Reduction never calls a privileged primitive: a call whose head reduces to
/// one is left as it is written, whatever the privilege level.
pub proof fn law_reduce_leaves_privileged_calls(
    l: Seq<Term>,
    b: Builtin,
    sc: Scope,
    host: HostModel,
    depth: nat,
)
    requires
        l.len() > 0,
        depth > 0,
        spec_reduce(l[0], sc, host, (depth - 1) as nat) == Ok::<Term, Fault>(Term::UnsafeFunc(b)),
    ensures
        spec_reduce(Term::List(l), sc, host, depth) == Ok::<Term, Fault>(Term::List(l)),
{
}

/// A primitive, a closure or a macro equals nothing, not even itself.
pub proof fn law_callables_never_equal(a: Term, b: Term)
    requires
        a is Func || a is UnsafeFunc || a is Lambda || a is Macro,
    ensures
        !term_eq(a, b),
        !term_eq(b, a),
        !term_eq(a, a),
{
}

/// A call of a privileged primitive at privilege level zero is denied, and at
/// a positive level it is the call of the primitive. Inside an `unsafe` block
/// the level is positive.
pub proof fn law_privilege_gate(b: Builtin, args: Seq<Term>, sc: Scope, host: HostModel, depth: nat)
    ensures
        sc.unsafe_level == 0 ==> spec_apply(Term::UnsafeFunc(b), args, sc, host, depth) == Err::<
            Term,
            Fault,
        >(Fault::PrivilegeDenied),
        sc.unsafe_level > 0 ==> spec_apply(Term::UnsafeFunc(b), args, sc, host, depth)
            == spec_builtin(b, args, sc, host, depth),
        raised(sc.unsafe_level) > 0,
        args.len() == 1 ==> spec_builtin(Builtin::Unsafe, args, sc, host, depth) == spec_eval(
            args[0],
            Scope { bindings: sc.bindings, unsafe_level: raised(sc.unsafe_level) },
            host,
            depth,
        ),
{
}

/// Evaluating a call whose head gives a privileged primitive, at privilege
/// level zero, fails with a denial.
pub proof fn law_privileged_call_denied(
    l: Seq<Term>,
    b: Builtin,
    sc: Scope,
    host: HostModel,
    depth: nat,
)
    requires
        l.len() > 0,
        depth > 0,
        sc.unsafe_level == 0,
        spec_eval(l[0], sc, host, (depth - 1) as nat) == Ok::<Term, Fault>(Term::UnsafeFunc(b)),
    ensures
        spec_eval(Term::List(l), sc, host, depth) == Err::<Term, Fault>(Fault::PrivilegeDenied),
{
    let args = l.skip(1);
    let inner = (depth - 1) as nat;
    assert(spec_apply(Term::UnsafeFunc(b), args, sc, host, inner) == Err::<Term, Fault>(
        Fault::PrivilegeDenied,
    ));
    assert(spec_call(Term::UnsafeFunc(b), args, sc, host, inner) == spec_apply(
        Term::UnsafeFunc(b),
        args,
        sc,
        host,
        inner,
    ));
}

/// Evaluating a symbol that no frame binds fails and names the symbol;
/// reducing it gives the symbol back.
pub proof fn law_undeclared_symbol(name: Seq<char>, sc: Scope, host: HostModel, depth: nat)
    requires
        lookup(sc.bindings, name) is None,
    ensures
        spec_eval(Term::Symbol(name), sc, host, depth) == Err::<Term, Fault>(
            Fault::UndeclaredSymbol(name),
        ),
        spec_reduce(Term::Symbol(name), sc, host, depth) == Ok::<Term, Fault>(Term::Symbol(name)),
{
}

/// Evaluating or reducing a call whose head gives a boolean, an integer, a
/// symbol or a list fails: such a value cannot be called.
pub proof fn law_not_callable(
    strategy: Strategy,
    l: Seq<Term>,
    f: Term,
    sc: Scope,
    host: HostModel,
    depth: nat,
)
    requires
        l.len() > 0,
        depth > 0,
        spec_delegated(strategy, l[0], sc, host, (depth - 1) as nat) == Ok::<Term, Fault>(f),
        f is Bool || f is Integer || f is Symbol || f is List,
    ensures
        spec_delegated(strategy, Term::List(l), sc, host, depth) == Err::<Term, Fault>(
            Fault::NotCallable,
        ),
{
    assert(spec_call(f, l.skip(1), sc, host, (depth - 1) as nat) == Err::<Term, Fault>(
        Fault::NotCallable,
    ));
}

/// A boolean, an integer, a primitive, a closure, a macro and nil evaluate
/// and reduce to themselves, in every scope and at every depth; so evaluating
/// the result once more changes nothing.
pub proof fn law_atoms_self_evaluate(
    strategy: Strategy,
    t: Term,
    sc: Scope,
    host: HostModel,
    depth: nat,
)
    requires
        t is Bool || t is Integer || t is Func || t is UnsafeFunc || t is Lambda || t is Macro || t
            == nil_term(),
    ensures
        spec_delegated(strategy, t, sc, host, depth) == Ok::<Term, Fault>(t),
{
}

/// A macro parameter stands for the argument form as it is written: in the
/// body that is the parameter alone, substitution gives the form itself,
/// whatever the form is, and nothing is evaluated.
pub proof fn law_substitution_is_of_forms(name: Seq<char>, form: Term)
    ensures
        spec_substitute(Term::Symbol(name), seq![Term::Symbol(name)], seq![form]) == Ok::<
            Term,
            Fault,
        >(form),
{
    let params = seq![Term::Symbol(name)];
    assert(term_eq(params[0], Term::Symbol(name)));
    assert(crate::semantics::position_from(params, Term::Symbol(name), 0) == Some(0int));
}

} // verus!
