//! The meaning of the language, as mathematical functions on terms.
//!
//! Every function here is a specification: the executable evaluator is proved
//! to compute exactly what these functions say.

use vstd::prelude::*;
use crate::env::{lookup, normalize, raised, Scope};
use crate::parse::{spec_parse_string, ParseError};
use crate::value::{all_symbols, nil_term, term_eq, term_is_atom, Builtin, Term};

verus! {

/// The model of an evaluation error.
pub enum Fault {
    UndeclaredSymbol(Seq<char>),
    ArityMismatch,
    TypeMismatch,
    NotCallable,
    PrivilegeDenied,
    AttemptToClone,
    MalformedForm,
    Unimplemented,
    DepthExceeded,
    Syntax(ParseError),
    NeedsFile(Seq<char>),
    NeedsScript(Seq<char>),
}

/// The model of the host record: what reading each file gave, and with what
/// status each script ended.
pub struct HostModel {
    pub files: Seq<(Seq<char>, Seq<char>)>,
    pub scripts: Seq<(Seq<char>, Option<i32>)>,
}

/// How the head of a call and a free symbol are treated.
#[derive(Clone, Copy, Debug, PartialEq, Eq, Structural)]
pub enum Strategy {
    /// Strict evaluation: an unbound symbol is an error, and a privileged
    /// primitive is called where the privilege level allows it.
    Eval,
    /// Reduction: an unbound symbol stands for itself, and a call of a
    /// privileged primitive is left as it is written.
    Reduce,
}

/// What an evaluation gives: a term or a fault.
pub type Outcome = Result<Term, Fault>;

// ---------------------------------------------------------------------------
// Macro expansion
// ---------------------------------------------------------------------------
/// The first position at or after `from` at which `items` holds a term equal
/// to `pattern`.
pub open spec fn position_from(items: Seq<Term>, pattern: Term, from: int) -> Option<int>
    decreases items.len() - from,
{
    if from < 0 || from >= items.len() {
        None
    } else if term_eq(items[from], pattern) {
        Some(from)
    } else {
        position_from(items, pattern, from + 1)
    }
}

/// The argument that stands for `pattern`: the one at the first position at
/// which `params` holds a term equal to `pattern`, if there is such a
/// position and an argument at it.
pub open spec fn bound_argument(params: Seq<Term>, args: Seq<Term>, pattern: Term) -> Option<Term> {
    match position_from(params, pattern, 0) {
        Some(i) => if i < args.len() {
            Some(args[i])
        } else {
            None
        },
        None => None,
    }
}

/// The body of a macro with every parameter symbol replaced by the argument
/// form at the parameter's position. A parameter without an argument stays. A
/// macro value inside the body is not supported.
pub open spec fn spec_substitute(body: Term, params: Seq<Term>, args: Seq<Term>) -> Outcome
    decreases body,
{
    match body {
        Term::Symbol(_) => match bound_argument(params, args, body) {
            Some(arg) => Ok(arg),
            None => Ok(body),
        },
        Term::List(l) => match spec_substitute_all(l, Seq::empty(), params, args) {
            Ok(items) => Ok(Term::List(items)),
            Err(e) => Err(e),
        },
        Term::Macro { .. } => Err(Fault::Unimplemented),
        _ => Ok(body),
    }
}

/// `done`, followed by [`spec_substitute`] of every item of `items` from left
/// to right; the first fault is the result.
pub open spec fn spec_substitute_all(
    items: Seq<Term>,
    done: Seq<Term>,
    params: Seq<Term>,
    args: Seq<Term>,
) -> Result<Seq<Term>, Fault>
    decreases items,
{
    if items.len() == 0 {
        Ok(done)
    } else {
        match spec_substitute(items[0], params, args) {
            Err(e) => Err(e),
            Ok(t) => spec_substitute_all(items.skip(1), done.push(t), params, args),
        }
    }
}

/// The macro that the head of a call is or names, if any.
pub open spec fn macro_at_head(head: Term, bindings: Seq<(Seq<char>, Term)>) -> Option<Term> {
    match head {
        Term::Macro { .. } => Some(head),
        Term::Symbol(s) => match lookup(bindings, s) {
            Some(m) => if m is Macro {
                Some(m)
            } else {
                None
            },
            None => None,
        },
        _ => None,
    }
}

/// Whether a term is a call whose head is or names a macro.
pub open spec fn is_macro_call(t: Term, bindings: Seq<(Seq<char>, Term)>) -> bool {
    t matches Term::List(l) && l.len() > 0 && macro_at_head(l[0], bindings) is Some
}

/// The expansion pass: a form with every macro invocation in it expanded,
/// depth first and from left to right. The result is a form, not a value.
///
/// `depth` bounds how many expansions may be nested. A call whose head is
/// itself a macro invocation is not supported.
pub open spec fn spec_macro_eval(t: Term, bindings: Seq<(Seq<char>, Term)>, depth: nat) -> Outcome
    decreases depth, 1nat, t,
{
    match t {
        Term::List(l) => if l.len() == 0 {
            Ok(t)
        } else {
            match macro_at_head(l[0], bindings) {
                Some(m) => spec_macro_expand(
                    m->Macro_params,
                    *m->Macro_body,
                    l.skip(1),
                    bindings,
                    depth,
                ),
                None => if is_macro_call(l[0], bindings) {
                    Err(Fault::Unimplemented)
                } else {
                    match spec_macro_eval_all(l, Seq::empty(), bindings, depth) {
                        Ok(items) => Ok(Term::List(items)),
                        Err(e) => Err(e),
                    }
                },
            }
        },
        _ => Ok(t),
    }
}

/// `done`, followed by [`spec_macro_eval`] of every item of `items` from left
/// to right; the first fault is the result.
pub open spec fn spec_macro_eval_all(
    items: Seq<Term>,
    done: Seq<Term>,
    bindings: Seq<(Seq<char>, Term)>,
    depth: nat,
) -> Result<Seq<Term>, Fault>
    decreases depth, 1nat, items,
{
    if items.len() == 0 {
        Ok(done)
    } else {
        match spec_macro_eval(items[0], bindings, depth) {
            Err(e) => Err(e),
            Ok(t) => spec_macro_eval_all(items.skip(1), done.push(t), bindings, depth),
        }
    }
}

/// One macro invocation expanded: the parameters stand for the argument
/// forms as they are written, the body is substituted, and the result goes
/// through the expansion pass once more.
pub open spec fn spec_macro_expand(
    params: Seq<Term>,
    body: Term,
    args: Seq<Term>,
    bindings: Seq<(Seq<char>, Term)>,
    depth: nat,
) -> Outcome
    decreases depth, 0nat, body,
{
    if params.len() != args.len() {
        Err(Fault::ArityMismatch)
    } else if depth == 0 {
        Err(Fault::DepthExceeded)
    } else {
        match spec_substitute(body, params, args) {
            Err(e) => Err(e),
            Ok(expansion) => spec_macro_eval(expansion, bindings, (depth - 1) as nat),
        }
    }
}

// ---------------------------------------------------------------------------
// Frames
// ---------------------------------------------------------------------------
/// The frame that binds each name to the value at its position.
pub open spec fn zip_frame(names: Seq<Term>, values: Seq<Term>) -> Seq<(Seq<char>, Term)> {
    Seq::new(names.len(), |i: int| (names[i]->Symbol_0, values[i]))
}

/// The frame that binds `names` to `values`: the names must all be symbols,
/// and there must be as many values as names. A name that stands twice is
/// bound once, to the value at its last position.
pub open spec fn spec_bind(names: Seq<Term>, values: Seq<Term>) -> Result<
    Seq<(Seq<char>, Term)>,
    Fault,
> {
    if !all_symbols(names) {
        Err(Fault::TypeMismatch)
    } else if names.len() != values.len() {
        Err(Fault::ArityMismatch)
    } else {
        Ok(normalize(zip_frame(names, values)))
    }
}

/// A scope with one more frame and the given privilege level. The frame
/// binds each name once: where `frame` writes a name more than once, the last
/// write is kept.
pub open spec fn extend(sc: Scope, frame: Seq<(Seq<char>, Term)>, level: nat) -> Scope {
    Scope { bindings: sc.bindings + normalize(frame), unsafe_level: level }
}

// ---------------------------------------------------------------------------
// Evaluation
// ---------------------------------------------------------------------------
/// Strict evaluation of a term in a scope.
pub open spec fn spec_eval(t: Term, sc: Scope, host: HostModel, depth: nat) -> Outcome {
    spec_delegated(Strategy::Eval, t, sc, host, depth)
}

/// Reduction of a term in a scope: evaluation that never calls a privileged
/// primitive and leaves unbound symbols as they are.
pub open spec fn spec_reduce(t: Term, sc: Scope, host: HostModel, depth: nat) -> Outcome {
    spec_delegated(Strategy::Reduce, t, sc, host, depth)
}

/// Evaluation or reduction of a term. Booleans, integers, primitives,
/// closures, macros and nil stand for themselves; a symbol stands for what it
/// is bound to; a non-empty list is a call of what its head gives.
///
/// `depth` bounds how deep calls may be nested: a call at depth zero fails.
pub open spec fn spec_delegated(
    strategy: Strategy,
    t: Term,
    sc: Scope,
    host: HostModel,
    depth: nat,
) -> Outcome
    decreases depth, 0nat, 0nat,
{
    match t {
        Term::Symbol(s) => match lookup(sc.bindings, s) {
            Some(v) => Ok(v),
            None => if strategy is Reduce {
                Ok(t)
            } else {
                Err(Fault::UndeclaredSymbol(s))
            },
        },
        Term::List(l) => if l.len() == 0 {
            Ok(t)
        } else if depth == 0 {
            Err(Fault::DepthExceeded)
        } else {
            match spec_delegated(strategy, l[0], sc, host, (depth - 1) as nat) {
                Err(e) => Err(e),
                Ok(f) => if strategy is Reduce && f is UnsafeFunc {
                    Ok(t)
                } else {
                    spec_call(f, l.skip(1), sc, host, (depth - 1) as nat)
                },
            }
        },
        _ => Ok(t),
    }
}

/// A call of `f` on argument forms: a macro is expanded and the expansion
/// evaluated, a primitive or closure is applied, anything else cannot be
/// called.
pub open spec fn spec_call(
    f: Term,
    args: Seq<Term>,
    sc: Scope,
    host: HostModel,
    depth: nat,
) -> Outcome
    decreases depth, 4nat, 0nat,
{
    match f {
        Term::Macro { params, body } => match spec_macro_expand(
            params,
            *body,
            args,
            sc.bindings,
            depth,
        ) {
            Err(e) => Err(e),
            Ok(expansion) => spec_delegated(Strategy::Eval, expansion, sc, host, depth),
        },
        Term::Func(_) | Term::UnsafeFunc(_) | Term::Lambda { .. } => spec_apply(
            f,
            args,
            sc,
            host,
            depth,
        ),
        _ => Err(Fault::NotCallable),
    }
}

/// The application of a primitive or a closure to argument forms.
///
/// A primitive receives the forms as they are. A privileged primitive fails
/// unless the privilege level of the scope is positive. A closure has the
/// forms evaluated in the caller's scope and bound to its parameters in a new
/// frame, its captured bindings put in a further frame, and its body
/// evaluated there at the caller's privilege level.
pub open spec fn spec_apply(
    f: Term,
    args: Seq<Term>,
    sc: Scope,
    host: HostModel,
    depth: nat,
) -> Outcome
    decreases depth, 3nat, 0nat,
{
    match f {
        Term::Func(b) => spec_builtin(b, args, sc, host, depth),
        Term::UnsafeFunc(b) => if sc.unsafe_level == 0 {
            Err(Fault::PrivilegeDenied)
        } else {
            spec_builtin(b, args, sc, host, depth)
        },
        Term::Lambda { args: params, body, closure } => match spec_inner_frame(
            *params,
            args,
            sc,
            host,
            depth,
        ) {
            Err(e) => Err(e),
            Ok(frame) => spec_delegated(
                Strategy::Eval,
                *body,
                extend(extend(sc, frame, 0), closure, sc.unsafe_level),
                host,
                depth,
            ),
        },
        Term::Macro { .. } => Err(Fault::Unimplemented),
        _ => Err(Fault::NotCallable),
    }
}

/// `done`, followed by the values of `forms`, evaluated from left to right;
/// the first fault is the result.
pub open spec fn spec_eval_forms(
    forms: Seq<Term>,
    done: Seq<Term>,
    sc: Scope,
    host: HostModel,
    depth: nat,
) -> Result<Seq<Term>, Fault>
    decreases depth, 1nat, forms.len(),
{
    if forms.len() == 0 {
        Ok(done)
    } else {
        match spec_delegated(Strategy::Eval, forms[0], sc, host, depth) {
            Err(e) => Err(e),
            Ok(v) => spec_eval_forms(forms.skip(1), done.push(v), sc, host, depth),
        }
    }
}

/// Evaluating forms adds one value for each form.
pub proof fn lemma_eval_forms_len(
    forms: Seq<Term>,
    done: Seq<Term>,
    sc: Scope,
    host: HostModel,
    depth: nat,
)
    ensures
        spec_eval_forms(forms, done, sc, host, depth) matches Ok(vs) ==> vs.len() == done.len()
            + forms.len(),
    decreases forms.len(),
{
    if forms.len() > 0 {
        match spec_delegated(Strategy::Eval, forms[0], sc, host, depth) {
            Ok(v) => lemma_eval_forms_len(forms.skip(1), done.push(v), sc, host, depth),
            Err(_) => {},
        }
    }
}

/// Evaluating forms to integers adds one integer for each form.
pub proof fn lemma_integers_len(
    forms: Seq<Term>,
    done: Seq<i64>,
    sc: Scope,
    host: HostModel,
    depth: nat,
)
    ensures
        spec_integers(forms, done, sc, host, depth) matches Ok(xs) ==> xs.len() == done.len()
            + forms.len(),
    decreases forms.len(),
{
    if forms.len() > 0 {
        match spec_delegated(Strategy::Eval, forms[0], sc, host, depth) {
            Ok(v) => if v is Integer {
                lemma_integers_len(forms.skip(1), done.push(v->Integer_0), sc, host, depth)
            },
            Err(_) => {},
        }
    }
}

/// Evaluating forms to symbols adds one name for each form.
pub proof fn lemma_symbols_len(
    forms: Seq<Term>,
    done: Seq<Seq<char>>,
    sc: Scope,
    host: HostModel,
    depth: nat,
)
    ensures
        spec_symbols(forms, done, sc, host, depth) matches Ok(names) ==> names.len() == done.len()
            + forms.len(),
    decreases forms.len(),
{
    if forms.len() > 0 {
        match spec_delegated(Strategy::Eval, forms[0], sc, host, depth) {
            Ok(v) => if v is Symbol {
                lemma_symbols_len(forms.skip(1), done.push(v->Symbol_0), sc, host, depth)
            },
            Err(_) => {},
        }
    }
}

/// The frame of a call: the parameter list must be a list of symbols with
/// as many items as there are argument forms; the forms are evaluated in the
/// calling scope and bound by position.
pub open spec fn spec_inner_frame(
    params: Term,
    forms: Seq<Term>,
    sc: Scope,
    host: HostModel,
    depth: nat,
) -> Result<Seq<(Seq<char>, Term)>, Fault>
    decreases depth, 2nat, 0nat,
{
    if !(params is List) || !all_symbols(params->List_0) {
        Err(Fault::TypeMismatch)
    } else if params->List_0.len() != forms.len() {
        Err(Fault::ArityMismatch)
    } else {
        match spec_eval_forms(forms, Seq::empty(), sc, host, depth) {
            Err(e) => Err(e),
            Ok(values) => Ok(normalize(zip_frame(params->List_0, values))),
        }
    }
}

/// `done`, followed by the integers that `forms` evaluate to, from left to
/// right; a form that gives no integer is a type mismatch.
pub open spec fn spec_integers(
    forms: Seq<Term>,
    done: Seq<i64>,
    sc: Scope,
    host: HostModel,
    depth: nat,
) -> Result<Seq<i64>, Fault>
    decreases depth, 1nat, forms.len(),
{
    if forms.len() == 0 {
        Ok(done)
    } else {
        match spec_delegated(Strategy::Eval, forms[0], sc, host, depth) {
            Err(e) => Err(e),
            Ok(v) => if v is Integer {
                spec_integers(forms.skip(1), done.push(v->Integer_0), sc, host, depth)
            } else {
                Err(Fault::TypeMismatch)
            },
        }
    }
}

/// `done`, followed by the names of the symbols that `forms` evaluate to,
/// from left to right; a form that gives no symbol is a type mismatch.
pub open spec fn spec_symbols(
    forms: Seq<Term>,
    done: Seq<Seq<char>>,
    sc: Scope,
    host: HostModel,
    depth: nat,
) -> Result<Seq<Seq<char>>, Fault>
    decreases depth, 1nat, forms.len(),
{
    if forms.len() == 0 {
        Ok(done)
    } else {
        match spec_delegated(Strategy::Eval, forms[0], sc, host, depth) {
            Err(e) => Err(e),
            Ok(v) => if v is Symbol {
                spec_symbols(forms.skip(1), done.push(v->Symbol_0), sc, host, depth)
            } else {
                Err(Fault::TypeMismatch)
            },
        }
    }
}

/// `names` and `values`, followed by the names and values of a sequence of
/// `(name value)` pairs: each pair must be a list of two items, and its second
/// item is evaluated. The pairs are taken from left to right; the first fault
/// is the result.
pub open spec fn spec_pairs(
    pairs: Seq<Term>,
    names: Seq<Term>,
    values: Seq<Term>,
    sc: Scope,
    host: HostModel,
    depth: nat,
) -> Result<(Seq<Term>, Seq<Term>), Fault>
    decreases depth, 1nat, pairs.len(),
{
    if pairs.len() == 0 {
        Ok((names, values))
    } else {
        match pairs[0] {
            Term::List(pair) => if pair.len() != 2 {
                Err(Fault::MalformedForm)
            } else {
                match spec_delegated(Strategy::Eval, pair[1], sc, host, depth) {
                    Err(e) => Err(e),
                    Ok(v) => spec_pairs(
                        pairs.skip(1),
                        names.push(pair[0]),
                        values.push(v),
                        sc,
                        host,
                        depth,
                    ),
                }
            },
            _ => Err(Fault::MalformedForm),
        }
    }
}

/// The frame that a list of `(name value)` pairs describes: the pairs are
/// read by [`spec_pairs`], then the names must all be symbols.
pub open spec fn spec_pairs_frame(pairs: Term, sc: Scope, host: HostModel, depth: nat) -> Result<
    Seq<(Seq<char>, Term)>,
    Fault,
>
    decreases depth, 2nat, 0nat,
{
    match pairs {
        Term::List(l) => match spec_pairs(l, Seq::empty(), Seq::empty(), sc, host, depth) {
            Err(e) => Err(e),
            Ok((names, values)) => spec_bind(names, values),
        },
        _ => Err(Fault::MalformedForm),
    }
}

/// The sum of a sequence of integers in two's complement arithmetic of 64
/// bits.
pub open spec fn wrapping_sum(xs: Seq<i64>) -> i64
    decreases xs.len(),
{
    if xs.len() == 0 {
        0
    } else {
        wrapping_sum(xs.drop_last()).wrapping_add(xs.last())
    }
}

/// The path of the file that `readf` reads for the given names: one name is
/// a library, two are a file and its extension in the library directory,
/// three are a directory, a file and its extension.
pub open spec fn library_path(names: Seq<Seq<char>>) -> Seq<char> {
    if names.len() == 1 {
        "lisb/"@ + names[0] + ".l"@
    } else if names.len() == 2 {
        "lisb/"@ + names[0] + "."@ + names[1]
    } else {
        names[0] + "/"@ + names[1] + "."@ + names[2]
    }
}

/// The path of the script that `lua` runs for the given name.
pub open spec fn script_path(name: Seq<char>) -> Seq<char> {
    "src/"@ + name + ".lua"@
}

/// What `lua` gives for the exit status of a script: the status, or nil
/// where there is none, and the symbol `unimplemented`.
pub open spec fn script_result(status: Option<i32>) -> Term {
    Term::List(
        seq![
            match status {
                Some(code) => Term::Integer(code as i64),
                None => nil_term(),
            },
            Term::Symbol("unimplemented"@),
        ],
    )
}

/// The form that `include` evaluates: `(let (readf library) body)`.
pub open spec fn include_form(library: Term, body: Term) -> Term {
    Term::List(
        seq![
            Term::Symbol("let"@),
            Term::List(seq![Term::Symbol("readf"@), library]),
            body,
        ],
    )
}

/// What a primitive gives for its argument forms.
pub open spec fn spec_builtin(
    b: Builtin,
    args: Seq<Term>,
    sc: Scope,
    host: HostModel,
    depth: nat,
) -> Outcome
    decreases depth, 2nat, 1nat,
{
    match b {
        Builtin::Cons => if args.len() != 2 {
            Err(Fault::ArityMismatch)
        } else {
            match spec_eval_forms(args, Seq::empty(), sc, host, depth) {
                Err(e) => Err(e),
                Ok(vs) => if vs[1] is List {
                    Ok(Term::List(seq![vs[0]] + vs[1]->List_0))
                } else {
                    Err(Fault::TypeMismatch)
                },
            }
        },
        Builtin::Car => if args.len() != 1 {
            Err(Fault::ArityMismatch)
        } else {
            match spec_delegated(Strategy::Eval, args[0], sc, host, depth) {
                Err(e) => Err(e),
                Ok(v) => match v {
                    Term::List(l) => if l.len() == 0 {
                        Ok(nil_term())
                    } else {
                        Ok(l[0])
                    },
                    _ => Err(Fault::TypeMismatch),
                },
            }
        },
        Builtin::Cdr => if args.len() != 1 {
            Err(Fault::ArityMismatch)
        } else {
            match spec_delegated(Strategy::Eval, args[0], sc, host, depth) {
                Err(e) => Err(e),
                Ok(v) => match v {
                    Term::List(l) => if l.len() == 0 {
                        Ok(nil_term())
                    } else {
                        Ok(Term::List(l.subrange(1, l.len() as int)))
                    },
                    _ => Err(Fault::TypeMismatch),
                },
            }
        },
        Builtin::Quote => if args.len() != 1 {
            Err(Fault::ArityMismatch)
        } else {
            Ok(args[0])
        },
        Builtin::Eq => if args.len() != 2 {
            Err(Fault::ArityMismatch)
        } else {
            match spec_eval_forms(args, Seq::empty(), sc, host, depth) {
                Err(e) => Err(e),
                Ok(vs) => Ok(Term::Bool(term_eq(vs[0], vs[1]))),
            }
        },
        Builtin::Macro => if args.len() != 2 {
            Err(Fault::ArityMismatch)
        } else if args[0] is List && all_symbols(args[0]->List_0) {
            Ok(Term::Macro { params: args[0]->List_0, body: Box::new(args[1]) })
        } else {
            Err(Fault::TypeMismatch)
        },
        Builtin::Fn => if args.len() != 2 {
            Err(Fault::ArityMismatch)
        } else if args[0] is List && all_symbols(args[0]->List_0) {
            Ok(
                Term::Lambda {
                    args: Box::new(args[0]),
                    body: Box::new(args[1]),
                    closure: normalize(sc.bindings),
                },
            )
        } else {
            Err(Fault::TypeMismatch)
        },
        Builtin::If => if args.len() != 3 {
            Err(Fault::ArityMismatch)
        } else {
            match spec_delegated(Strategy::Eval, args[0], sc, host, depth) {
                Err(e) => Err(e),
                Ok(c) => match c {
                    Term::Bool(yes) => if yes {
                        spec_delegated(Strategy::Eval, args[1], sc, host, depth)
                    } else {
                        spec_delegated(Strategy::Eval, args[2], sc, host, depth)
                    },
                    _ => Err(Fault::TypeMismatch),
                },
            }
        },
        Builtin::Atom => if args.len() != 1 {
            Err(Fault::ArityMismatch)
        } else {
            match spec_delegated(Strategy::Eval, args[0], sc, host, depth) {
                Err(e) => Err(e),
                Ok(v) => Ok(Term::Bool(term_is_atom(v))),
            }
        },
        Builtin::Lt => if args.len() != 2 {
            Err(Fault::ArityMismatch)
        } else {
            match spec_integers(args, Seq::empty(), sc, host, depth) {
                Err(e) => Err(e),
                Ok(xs) => Ok(Term::Bool(xs[0] < xs[1])),
            }
        },
        Builtin::Gt => if args.len() != 2 {
            Err(Fault::ArityMismatch)
        } else {
            match spec_integers(args, Seq::empty(), sc, host, depth) {
                Err(e) => Err(e),
                Ok(xs) => Ok(Term::Bool(xs[0] > xs[1])),
            }
        },
        Builtin::Add => match spec_integers(args, Seq::empty(), sc, host, depth) {
            Err(e) => Err(e),
            Ok(xs) => Ok(Term::Integer(wrapping_sum(xs))),
        },
        Builtin::Sub => if args.len() != 2 {
            Err(Fault::ArityMismatch)
        } else {
            match spec_integers(args, Seq::empty(), sc, host, depth) {
                Err(e) => Err(e),
                Ok(xs) => Ok(Term::Integer(xs[0].wrapping_sub(xs[1]))),
            }
        },
        Builtin::List => match spec_eval_forms(args, Seq::empty(), sc, host, depth) {
            Err(e) => Err(e),
            Ok(vs) => Ok(Term::List(vs)),
        },
        Builtin::Let => if args.len() != 2 {
            Err(Fault::ArityMismatch)
        } else {
            match spec_delegated(Strategy::Eval, args[0], sc, host, depth) {
                Err(e) => Err(e),
                Ok(pairs) => match spec_pairs_frame(pairs, sc, host, depth) {
                    Err(e) => Err(e),
                    Ok(frame) => spec_delegated(
                        Strategy::Eval,
                        args[1],
                        extend(sc, frame, 0),
                        host,
                        depth,
                    ),
                },
            }
        },
        Builtin::Eval => if args.len() != 1 {
            Err(Fault::ArityMismatch)
        } else {
            match spec_delegated(Strategy::Eval, args[0], sc, host, depth) {
                Err(e) => Err(e),
                Ok(form) => spec_delegated(Strategy::Eval, form, sc, host, depth),
            }
        },
        Builtin::Unsafe => if args.len() != 1 {
            Err(Fault::ArityMismatch)
        } else {
            spec_delegated(
                Strategy::Eval,
                args[0],
                Scope { bindings: sc.bindings, unsafe_level: raised(sc.unsafe_level) },
                host,
                depth,
            )
        },
        Builtin::SpookyAdd => if args.len() != 2 {
            Err(Fault::ArityMismatch)
        } else {
            match spec_integers(args, Seq::empty(), sc, host, depth) {
                Err(e) => Err(e),
                Ok(xs) => Ok(Term::Integer(xs[0].wrapping_add(xs[1]))),
            }
        },
        Builtin::Lua => if args.len() != 1 {
            Err(Fault::ArityMismatch)
        } else {
            match spec_symbols(args, Seq::empty(), sc, host, depth) {
                Err(e) => Err(e),
                Ok(names) => match lookup(host.scripts, script_path(names[0])) {
                    Some(status) => Ok(script_result(status)),
                    None => Err(Fault::NeedsScript(script_path(names[0]))),
                },
            }
        },
        Builtin::Readf => if args.len() < 1 || args.len() > 3 {
            Err(Fault::ArityMismatch)
        } else {
            match spec_symbols(args, Seq::empty(), sc, host, depth) {
                Err(e) => Err(e),
                Ok(names) => match lookup(host.files, library_path(names)) {
                    Some(text) => match spec_parse_string(text) {
                        Ok(t) => Ok(t),
                        Err(e) => Err(Fault::Syntax(e)),
                    },
                    None => Err(Fault::NeedsFile(library_path(names))),
                },
            }
        },
        Builtin::Include => if args.len() != 2 {
            Err(Fault::ArityMismatch)
        } else {
            spec_delegated(Strategy::Eval, include_form(args[0], args[1]), sc, host, depth)
        },
    }
}

} // verus!
