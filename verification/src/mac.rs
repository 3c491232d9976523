//! Macro expansion: the rewriting of forms before they are evaluated.

use vstd::prelude::*;
use vstd::slice::slice_subrange;
use crate::env::LispEnv;
use crate::eval::{agrees, EvalError};
use crate::semantics::{
    bound_argument,
    is_macro_call,
    macro_at_head,
    position_from,
    spec_macro_eval,
    spec_macro_eval_all,
    spec_macro_expand,
    spec_substitute,
    spec_substitute_all,
};
use crate::value::{terms, MacroValue, Term, Value};

verus! {

impl MacroValue {
    /// The model of this macro as a value.
    pub open spec fn model(&self) -> Term {
        Term::Macro { params: terms(self.params@), body: Box::new(self.body@) }
    }

    /// The argument that stands for `pattern`: the one at the first position
    /// at which the parameters hold a value equal to `pattern`.
    pub fn get<'a>(&self, args: &'a [Value], pattern: &Value) -> (r: Option<&'a Value>)
        ensures
            match bound_argument(terms(self.params@), terms(args@), pattern@) {
                Some(t) => r is Some && r->Some_0@ == t,
                None => r is None,
            },
    {
        let mut i: usize = 0;
        while i < self.params.len()
            invariant
                i <= self.params.len(),
                position_from(terms(self.params@), pattern@, 0) == position_from(
                    terms(self.params@),
                    pattern@,
                    i as int,
                ),
            decreases self.params.len() - i,
        {
            if self.params[i] == *pattern {
                if i < args.len() {
                    return Some(&args[i]);
                } else {
                    return None;
                }
            }
            i += 1;
        }
        None
    }

    /// What stands for `symbol` in an expansion: the argument that is bound to
    /// it, or the symbol itself where none is.
    pub fn expand_symbol<'a>(&self, args: &'a [Value], symbol: &'a Value) -> (r: &'a Value)
        ensures
            r@ == (match bound_argument(terms(self.params@), terms(args@), symbol@) {
                Some(t) => t,
                None => symbol@,
            }),
    {
        match self.get(args, symbol) {
            Some(arg) => arg,
            None => symbol,
        }
    }

    /// The expansion pass on a form outside any environment: only a macro
    /// that stands in the form itself, as the head of a call, is expanded.
    pub fn expand_recurse(val: &Value, depth: usize) -> (r: Result<Value, EvalError>)
        ensures
            agrees(r, spec_macro_eval(val@, Seq::empty(), depth as nat)),
    {
        let env = LispEnv::_empty();
        env.macro_eval(val, depth)
    }

    /// `body` with every parameter symbol replaced by the argument form at
    /// the parameter's position.
    pub fn expand_body(&self, body: &Value, args: &[Value]) -> (r: Result<Value, EvalError>)
        ensures
            agrees(r, spec_substitute(body@, terms(self.params@), terms(args@))),
        decreases body,
    {
        proof {
            body.lemma_model();
        }
        match body {
            Value::Symbol(_) => match self.get(args, body) {
                Some(arg) => Ok(arg.clone()),
                None => Ok(body.clone()),
            },
            Value::List(l) => {
                let mut out: Vec<Value> = Vec::new();
                let mut i: usize = 0;
                assert(terms(l@).skip(0) =~= terms(l@));
                assert(terms(out@) =~= Seq::<Term>::empty());
                while i < l.len()
                    invariant
                        body == Value::List(*l),
                        body@ == Term::List(terms(l@)),
                        i <= l.len(),
                        spec_substitute_all(
                            terms(l@),
                            Seq::empty(),
                            terms(self.params@),
                            terms(args@),
                        ) == spec_substitute_all(
                            terms(l@).skip(i as int),
                            terms(out@),
                            terms(self.params@),
                            terms(args@),
                        ),
                    decreases l.len() - i,
                {
                    assert(terms(l@).skip(i as int).skip(1) =~= terms(l@).skip(i + 1));
                    proof {
                        assert(decreases_to!(body => body->List_0@[i as int]));
                    }
                    match self.expand_body(&l[i], args) {
                        Err(e) => {
                            return Err(e);
                        },
                        Ok(v) => {
                            let ghost before = terms(out@);
                            out.push(v);
                            assert(terms(out@) =~= before.push(v@));
                        },
                    }
                    i += 1;
                }
                let r = Value::List(out);
                proof {
                    r.lemma_model();
                }
                Ok(r)
            },
            Value::Macro(_) => Err(EvalError::Unimplemented),
            _ => Ok(body.clone()),
        }
    }
}

impl<'e> LispEnv<'e> {
    /// The macro that the head of a call is or names, if any.
    pub fn macro_at_head<'a>(&'a self, head: &'a Value) -> (r: Option<&'a MacroValue>)
        ensures
            match macro_at_head(head@, self@.bindings) {
                Some(m) => r is Some && r->Some_0.model() == m,
                None => r is None,
            },
    {
        proof {
            head.lemma_model();
        }
        match head {
            Value::Macro(m) => Some(m),
            Value::Symbol(s) => match self.get(s) {
                Some(v) => {
                    proof {
                        v.lemma_model();
                    }
                    match v {
                        Value::Macro(m) => Some(m),
                        _ => None,
                    }
                },
                None => None,
            },
            _ => None,
        }
    }

    /// Whether a form is a call whose head is or names a macro.
    pub fn is_macro_call(&self, form: &Value) -> (r: bool)
        ensures
            r == is_macro_call(form@, self@.bindings),
    {
        proof {
            form.lemma_model();
        }
        match form {
            Value::List(l) => l.len() > 0 && self.macro_at_head(&l[0]).is_some(),
            _ => false,
        }
    }

    /// One macro invocation expanded: the body with the argument forms
    /// substituted for the parameters, and that result expanded in turn.
    pub fn macro_expand(&self, mac: &MacroValue, args: &[Value], depth: usize) -> (r: Result<
        Value,
        EvalError,
    >)
        ensures
            agrees(
                r,
                spec_macro_expand(
                    terms(mac.params@),
                    mac.body@,
                    terms(args@),
                    self@.bindings,
                    depth as nat,
                ),
            ),
        decreases depth, 0nat, mac,
    {
        if mac.params.len() != args.len() {
            return Err(EvalError::ArityMismatch);
        }
        if depth == 0 {
            return Err(EvalError::DepthExceeded);
        }
        match mac.expand_body(&*mac.body, args) {
            Err(e) => Err(e),
            Ok(expansion) => self.macro_eval(&expansion, depth - 1),
        }
    }

    /// The expansion pass: `val` with every macro invocation in it expanded.
    /// The result is a form that is yet to be evaluated. `depth` is how many
    /// expansions may be nested.
    pub fn macro_eval(&self, val: &Value, depth: usize) -> (r: Result<Value, EvalError>)
        ensures
            agrees(r, spec_macro_eval(val@, self@.bindings, depth as nat)),
        decreases depth, 1nat, val,
    {
        proof {
            val.lemma_model();
        }
        match val {
            Value::List(l) => {
                if l.len() == 0 {
                    return Ok(val.clone());
                }
                let args = slice_subrange(l.as_slice(), 1, l.len());
                assert(terms(args@) =~= terms(l@).skip(1));
                match self.macro_at_head(&l[0]) {
                    Some(m) => self.macro_expand(m, args, depth),
                    None => {
                        if self.is_macro_call(&l[0]) {
                            return Err(EvalError::Unimplemented);
                        }
                        let mut out: Vec<Value> = Vec::new();
                        let mut i: usize = 0;
                        assert(terms(l@).skip(0) =~= terms(l@));
                        assert(terms(out@) =~= Seq::<Term>::empty());
                        while i < l.len()
                            invariant
                                val == Value::List(*l),
                                val@ == Term::List(terms(l@)),
                                l.len() > 0,
                                macro_at_head(terms(l@)[0], self@.bindings) is None,
                                !is_macro_call(terms(l@)[0], self@.bindings),
                                i <= l.len(),
                                spec_macro_eval_all(
                                    terms(l@),
                                    Seq::empty(),
                                    self@.bindings,
                                    depth as nat,
                                ) == spec_macro_eval_all(
                                    terms(l@).skip(i as int),
                                    terms(out@),
                                    self@.bindings,
                                    depth as nat,
                                ),
                            decreases l.len() - i,
                        {
                            assert(terms(l@).skip(i as int).skip(1) =~= terms(l@).skip(i + 1));
                            proof {
                                assert(decreases_to!(val => val->List_0@[i as int]));
                            }
                            match self.macro_eval(&l[i], depth) {
                                Err(e) => {
                                    return Err(e);
                                },
                                Ok(v) => {
                                    let ghost before = terms(out@);
                                    out.push(v);
                                    assert(terms(out@) =~= before.push(v@));
                                },
                            }
                            i += 1;
                        }
                        let r = Value::List(out);
                        proof {
                            r.lemma_model();
                        }
                        Ok(r)
                    },
                }
            },
            _ => Ok(val.clone()),
        }
    }
}

} // verus!
