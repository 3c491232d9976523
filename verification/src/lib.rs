//! A minimal, embeddable Lisp: values, lexical environments, an evaluator with
//! closures and unhygienic macros, and a privilege level that gates the
//! side-effecting primitives.
//!
//! A text goes through the scanner ([`scan`]) and the parser ([`parse`]) and
//! becomes a [`value::Value`], which is both the syntax tree and the runtime
//! value. The macro expansion pass ([`mac`]) rewrites a form; the evaluator
//! ([`eval`], with the primitives in [`builtins`]) gives its value in an
//! environment ([`env`]). What the language means is written down once, as
//! mathematical functions on the models of values and environments
//! ([`semantics`]); every executable function is proved to compute what those
//! functions say, and [`laws`], [`depth`] and [`replay`] prove what holds of
//! them in general.
//!
//! The library does no input or output. The privileged primitives that read
//! a file or run a script look the answer up in a record ([`eval::Host`]) and
//! say what is missing; the caller does the work, records the answer and
//! evaluates again ([`repl`]).
//!
//! Evaluation is recursive. Every call of a function of the language takes
//! one level of depth, and an evaluation that would nest calls deeper than the
//! depth it was given fails with [`eval::EvalError::DepthExceeded`].

use vstd::prelude::*;

pub mod builtins;
pub mod cli;
pub mod depth;
pub mod env;
pub mod eval;
pub mod laws;
pub mod mac;
pub mod parse;
pub mod print;
pub mod repl;
pub mod replay;
pub mod scan;
pub mod semantics;
pub mod text;
pub mod value;

pub use crate::parse::parse_string;

use crate::env::{LispEnv, Scope};
use crate::eval::{agrees, EvalError, Host};
use crate::parse::spec_parse_string;
use crate::semantics::{
    spec_eval,
    spec_macro_eval,
    spec_pairs_frame,
    Fault,
    HostModel,
    Outcome,
};
use crate::value::Value;

verus! {

/// How deep calls may be nested where the caller has no wish of its own.
///
/// Every call takes one level, whatever is called. A closure whose body is
/// `(if test then else)` with a recursive call inside an arithmetic form takes
/// three levels for each round of the recursion, so that this depth lets such
/// a closure recurse some 680 rounds deep. Each level takes a few frames of
/// the machine stack: at this depth an optimised build stays within a stack of
/// two megabytes. A caller with less stack passes a smaller depth, and one
/// with more may pass a greater one; by the laws of [`depth`] the depth only
/// decides whether there is a result, never what it is.
pub const DEFAULT_DEPTH: usize = 2048;

/// The value of the expression that a source text starts with.
pub open spec fn spec_parse_eval(
    source: Seq<char>,
    sc: Scope,
    host: HostModel,
    depth: nat,
) -> Outcome {
    match spec_parse_string(source) {
        Err(e) => Err(Fault::Syntax(e)),
        Ok(t) => spec_eval(t, sc, host, depth),
    }
}

/// The value of the expression that a source text starts with, after the
/// macro expansion pass.
pub open spec fn spec_parse_eval_and_macro_pass(
    source: Seq<char>,
    sc: Scope,
    host: HostModel,
    depth: nat,
) -> Outcome {
    match spec_parse_string(source) {
        Err(e) => Err(Fault::Syntax(e)),
        Ok(t) => match spec_macro_eval(t, sc.bindings, depth) {
            Err(e) => Err(e),
            Ok(expanded) => spec_eval(expanded, sc, host, depth),
        },
    }
}

/// Parses the first expression of `source` and evaluates it in `env`.
pub fn parse_eval(source: &str, env: &LispEnv, host: &Host, depth: usize) -> (r: Result<
    Value,
    EvalError,
>)
    ensures
        agrees(r, spec_parse_eval(source@, env@, host@, depth as nat)),
{
    match parse_string(source) {
        Err(e) => Err(EvalError::Syntax(e)),
        Ok(form) => env.eval(&form, host, depth),
    }
}

/// Parses the first expression of `source`, expands the macro invocations
/// in it and evaluates the result in `env`.
pub fn parse_eval_and_macro_pass(source: &str, env: &LispEnv, host: &Host, depth: usize) -> (r:
    Result<Value, EvalError>)
    ensures
        agrees(r, spec_parse_eval_and_macro_pass(source@, env@, host@, depth as nat)),
{
    match parse_string(source) {
        Err(e) => Err(EvalError::Syntax(e)),
        Ok(form) => match env.macro_eval(&form, depth) {
            Err(e) => Err(e),
            Ok(expanded) => env.eval(&expanded, host, depth),
        },
    }
}

/// A child of `base_env` that holds a library: `src` must start with a list
/// of `(name value)` pairs, and each value is evaluated in `base_env`. A name
/// that the library defines twice is bound once, to the later definition.
pub fn add_lib<'e>(base_env: &'e LispEnv<'e>, src: &str, host: &Host, depth: usize) -> (r: Result<
    LispEnv<'e>,
    EvalError,
>)
    ensures
        match spec_parse_string(src@) {
            Err(e) => r is Err && r->Err_0@ == Fault::Syntax(e),
            Ok(pairs) => match spec_pairs_frame(pairs, base_env@, host@, depth as nat) {
                Ok(frame) => r is Ok && r->Ok_0.own() == frame && r->Ok_0@.bindings
                    == base_env@.bindings + frame && r->Ok_0@.unsafe_level == 0,
                Err(e) => r is Err && r->Err_0@ == e,
            },
        },
{
    match parse_string(src) {
        Err(e) => Err(EvalError::Syntax(e)),
        Ok(pairs) => base_env.new_inner_from_pairs(&pairs, host, depth),
    }
}

} // verus!
