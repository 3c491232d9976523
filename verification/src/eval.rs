//! The evaluator: strict evaluation, reduction and the application of
//! closures, with the record of outside work that the privileged primitives
//! draw on.

use vstd::prelude::*;
use vstd::slice::slice_subrange;
use crate::builtins::apply_builtin;
use crate::env::{
    lemma_normalize_fixed,
    lookup,
    normalize,
    normalize_bindings,
    unique_names,
    Bindings,
    LispEnv,
};
use crate::parse::ParseError;
use crate::semantics::{
    spec_apply,
    spec_bind,
    spec_call,
    spec_delegated,
    spec_eval,
    spec_eval_forms,
    spec_inner_frame,
    spec_integers,
    spec_pairs,
    spec_pairs_frame,
    spec_reduce,
    spec_symbols,
    zip_frame,
    Fault,
    HostModel,
    Outcome,
    Strategy,
};
use crate::value::{all_symbols, bindings_model, clone_bindings, terms, Term, Value};

verus! {

/// Why an evaluation did not produce a value.
#[derive(Debug)]
pub enum EvalError {
    /// A symbol was looked up that no visible frame binds.
    UndeclaredSymbol(String),
    /// A primitive or closure was given the wrong number of arguments.
    ArityMismatch,
    /// An argument was not of the variant that the operation needs.
    TypeMismatch,
    /// The head of a call evaluated to something that cannot be called.
    NotCallable,
    /// A privileged primitive was called at privilege level zero.
    PrivilegeDenied,
    /// A value that cannot be duplicated was asked to be.
    AttemptToClone,
    /// A form did not have the shape that a special form expects.
    MalformedForm,
    /// A feature that the evaluator does not provide.
    Unimplemented,
    /// Calls were nested deeper than the depth that the caller allowed.
    DepthExceeded,
    /// A text that was read is no expression.
    Syntax(ParseError),
    /// The contents of the file at this path are needed and the host record
    /// does not hold them.
    NeedsFile(String),
    /// The exit status of the script at this path is needed and the host
    /// record does not hold it.
    NeedsScript(String),
}

impl View for EvalError {
    type V = Fault;

    open spec fn view(&self) -> Fault {
        match self {
            EvalError::UndeclaredSymbol(s) => Fault::UndeclaredSymbol(s@),
            EvalError::ArityMismatch => Fault::ArityMismatch,
            EvalError::TypeMismatch => Fault::TypeMismatch,
            EvalError::NotCallable => Fault::NotCallable,
            EvalError::PrivilegeDenied => Fault::PrivilegeDenied,
            EvalError::AttemptToClone => Fault::AttemptToClone,
            EvalError::MalformedForm => Fault::MalformedForm,
            EvalError::Unimplemented => Fault::Unimplemented,
            EvalError::DepthExceeded => Fault::DepthExceeded,
            EvalError::Syntax(e) => Fault::Syntax(*e),
            EvalError::NeedsFile(p) => Fault::NeedsFile(p@),
            EvalError::NeedsScript(p) => Fault::NeedsScript(p@),
        }
    }
}

/// The record of outside work: the contents of the files that were read and
/// the exit statuses of the scripts that were run. The evaluator only looks
/// things up in it; where something is missing it says so with
/// [`EvalError::NeedsFile`] or [`EvalError::NeedsScript`], and the caller does
/// the work, adds the answer and evaluates again.
///
/// The record is kept by path. An evaluation that reads one file twice, or
/// runs one script twice, finds the one recorded answer both times: the caller
/// is asked for each path once, so a script is run once for an evaluation
/// however often the program calls for it. A caller that wants a script to run
/// again for the next evaluation starts that evaluation with a new record.
#[derive(Debug)]
pub struct Host {
    pub files: Vec<(String, String)>,
    pub scripts: Vec<(String, Option<i32>)>,
}

impl View for Host {
    type V = HostModel;

    open spec fn view(&self) -> HostModel {
        HostModel {
            files: Seq::new(self.files@.len(), |i: int| (self.files@[i].0@, self.files@[i].1@)),
            scripts: Seq::new(
                self.scripts@.len(),
                |i: int| (self.scripts@[i].0@, self.scripts@[i].1),
            ),
        }
    }
}

impl Host {
    /// A record that holds nothing.
    pub fn new() -> (r: Host)
        ensures
            r@.files == Seq::<(Seq<char>, Seq<char>)>::empty(),
            r@.scripts == Seq::<(Seq<char>, Option<i32>)>::empty(),
    {
        let r = Host { files: Vec::new(), scripts: Vec::new() };
        assert(r@.files =~= Seq::<(Seq<char>, Seq<char>)>::empty());
        assert(r@.scripts =~= Seq::<(Seq<char>, Option<i32>)>::empty());
        r
    }

    /// Records the contents of a file. A later record of a path replaces an
    /// earlier one.
    pub fn add_file(&mut self, path: String, text: String)
        ensures
            final(self)@.files == old(self)@.files.push((path@, text@)),
            final(self)@.scripts == old(self)@.scripts,
    {
        self.files.push((path, text));
        assert(self@.files =~= old(self)@.files.push((path@, text@)));
        assert(self@.scripts =~= old(self)@.scripts);
    }

    /// Records the exit status of a script. A later record of a path replaces
    /// an earlier one.
    pub fn add_script(&mut self, path: String, status: Option<i32>)
        ensures
            final(self)@.scripts == old(self)@.scripts.push((path@, status)),
            final(self)@.files == old(self)@.files,
    {
        self.scripts.push((path, status));
        assert(self@.scripts =~= old(self)@.scripts.push((path@, status)));
        assert(self@.files =~= old(self)@.files);
    }

    /// The recorded contents of the file at `path`.
    pub fn file(&self, path: &String) -> (r: Option<&String>)
        ensures
            match lookup(self@.files, path@) {
                Some(text) => r is Some && r->Some_0@ == text,
                None => r is None,
            },
    {
        let ghost all = self@.files;
        assert(all.take(all.len() as int) =~= all);
        let mut i: usize = self.files.len();
        while i > 0
            invariant
                i <= self.files.len(),
                all == self@.files,
                lookup(all, path@) == lookup(all.take(i as int), path@),
            decreases i,
        {
            i -= 1;
            assert(all.take(i + 1).last() == all[i as int]);
            assert(all.take(i + 1).drop_last() =~= all.take(i as int));
            if self.files[i].0 == *path {
                return Some(&self.files[i].1);
            }
        }
        None
    }

    /// The recorded exit status of the script at `path`.
    pub fn script(&self, path: &String) -> (r: Option<Option<i32>>)
        ensures
            r == lookup(self@.scripts, path@),
    {
        let ghost all = self@.scripts;
        assert(all.take(all.len() as int) =~= all);
        let mut i: usize = self.scripts.len();
        while i > 0
            invariant
                i <= self.scripts.len(),
                all == self@.scripts,
                lookup(all, path@) == lookup(all.take(i as int), path@),
            decreases i,
        {
            i -= 1;
            assert(all.take(i + 1).last() == all[i as int]);
            assert(all.take(i + 1).drop_last() =~= all.take(i as int));
            if self.scripts[i].0 == *path {
                return Some(self.scripts[i].1);
            }
        }
        None
    }
}

/// Whether a result of the evaluator is what the semantics gives.
pub open spec fn agrees(r: Result<Value, EvalError>, o: Outcome) -> bool {
    match o {
        Ok(t) => r is Ok && r->Ok_0@ == t,
        Err(f) => r is Err && r->Err_0@ == f,
    }
}

/// The views of a sequence of strings, element by element.
pub open spec fn names_of(names: Seq<String>) -> Seq<Seq<char>> {
    Seq::new(names.len(), |i: int| names[i]@)
}

/// The frame that binds each name to the value at its position: the names
/// must all be symbols, and there must be as many values as names. A name
/// that stands twice is bound once, to the value at its last position.
pub fn bind(names: &[Value], values: &[Value]) -> (r: Result<Bindings, EvalError>)
    ensures
        match spec_bind(terms(names@), terms(values@)) {
            Ok(frame) => r is Ok && bindings_model(r->Ok_0@) == frame && unique_names(frame),
            Err(e) => r is Err && r->Err_0@ == e,
        },
{
    let mut frame: Bindings = Vec::new();
    let mut i: usize = 0;
    while i < names.len()
        invariant
            i <= names.len(),
            forall|j: int| 0 <= j < i ==> (#[trigger] terms(names@)[j]) is Symbol,
        decreases names.len() - i,
    {
        if !names[i].is_symbol() {
            assert(!(terms(names@)[i as int] is Symbol));
            return Err(EvalError::TypeMismatch);
        }
        i += 1;
    }
    if names.len() != values.len() {
        return Err(EvalError::ArityMismatch);
    }
    let mut i: usize = 0;
    while i < names.len()
        invariant
            i <= names.len(),
            names.len() == values.len(),
            all_symbols(terms(names@)),
            frame@.len() == i,
            forall|j: int|
                0 <= j < i ==> (#[trigger] frame@[j]).0@ == names@[j]@->Symbol_0 && frame@[j].1@
                    == values@[j]@,
        decreases names.len() - i,
    {
        assert(terms(names@)[i as int] is Symbol);
        match &names[i] {
            Value::Symbol(s) => {
                frame.push((s.clone(), values[i].clone()));
            },
            _ => {
                assert(false);
            },
        }
        i += 1;
    }
    assert(bindings_model(frame@) =~= zip_frame(terms(names@), terms(values@)));
    Ok(normalize_bindings(frame))
}

impl<'e> LispEnv<'e> {
    /// Strict evaluation of `val` in this environment. `depth` is how deep
    /// calls may be nested.
    pub fn eval(&self, val: &Value, host: &Host, depth: usize) -> (r: Result<Value, EvalError>)
        ensures
            agrees(r, spec_eval(val@, self@, host@, depth as nat)),
        decreases depth, 0nat, 1nat,
    {
        self.delegated_eval(val, Strategy::Eval, host, depth)
    }

    /// Reduction of `val` in this environment: evaluation that leaves an
    /// unbound symbol and a call of a privileged primitive as they are.
    pub fn reduce(&self, val: &Value, host: &Host, depth: usize) -> (r: Result<Value, EvalError>)
        ensures
            agrees(r, spec_reduce(val@, self@, host@, depth as nat)),
    {
        self.delegated_eval(val, Strategy::Reduce, host, depth)
    }

    /// Evaluation or reduction of `val`, as `strategy` says.
    pub fn delegated_eval(&self, val: &Value, strategy: Strategy, host: &Host, depth: usize) -> (r:
        Result<Value, EvalError>)
        ensures
            agrees(r, spec_delegated(strategy, val@, self@, host@, depth as nat)),
        decreases depth, 0nat, 0nat,
    {
        proof {
            val.lemma_model();
        }
        match val {
            Value::Symbol(s) => match self.get(s) {
                Some(v) => Ok(v.clone()),
                None => match strategy {
                    Strategy::Reduce => Ok(val.clone()),
                    Strategy::Eval => Err(EvalError::UndeclaredSymbol(s.clone())),
                },
            },
            Value::List(l) => {
                if l.len() == 0 {
                    Ok(val.clone())
                } else if depth == 0 {
                    Err(EvalError::DepthExceeded)
                } else {
                    let args = slice_subrange(l.as_slice(), 1, l.len());
                    assert(terms(args@) =~= terms(l@).skip(1));
                    match self.delegated_eval(&l[0], strategy, host, depth - 1) {
                        Err(e) => Err(e),
                        Ok(f) => {
                            let stays = match (strategy, &f) {
                                (Strategy::Reduce, Value::UnsafeFunc(_)) => true,
                                _ => false,
                            };
                            if stays {
                                Ok(val.clone())
                            } else {
                                self.outer_apply(&f, args, host, depth - 1)
                            }
                        },
                    }
                }
            },
            _ => Ok(val.clone()),
        }
    }

    /// A call of `f` on argument forms: a macro is expanded and the expansion
    /// evaluated, a primitive or closure is applied.
    pub fn outer_apply(&self, f: &Value, args: &[Value], host: &Host, depth: usize) -> (r: Result<
        Value,
        EvalError,
    >)
        ensures
            agrees(r, spec_call(f@, terms(args@), self@, host@, depth as nat)),
        decreases depth, 6nat, 0nat,
    {
        proof {
            f.lemma_model();
        }
        match f {
            Value::Macro(m) => match self.macro_expand(m, args, depth) {
                Err(e) => Err(e),
                Ok(expansion) => self.eval(&expansion, host, depth),
            },
            Value::Func(_) | Value::UnsafeFunc(_) | Value::Lambda(_) => self.apply(
                f,
                args,
                host,
                depth,
            ),
            _ => Err(EvalError::NotCallable),
        }
    }

    /// The application of a primitive or a closure to argument forms.
    pub fn apply(&self, f: &Value, args: &[Value], host: &Host, depth: usize) -> (r: Result<
        Value,
        EvalError,
    >)
        ensures
            agrees(r, spec_apply(f@, terms(args@), self@, host@, depth as nat)),
        decreases depth, 5nat, 0nat,
    {
        proof {
            f.lemma_model();
        }
        match f {
            Value::Func(b) => apply_builtin(*b, args, self, host, depth),
            Value::UnsafeFunc(b) => {
                if self.unsafe_level() == 0 {
                    Err(EvalError::PrivilegeDenied)
                } else {
                    apply_builtin(*b, args, self, host, depth)
                }
            },
            Value::Lambda(lambda) => {
                match self.new_inner_env(&*lambda.args, args, host, depth) {
                    Err(e) => Err(e),
                    Ok(inner_env) => {
                        proof {
                            lemma_normalize_fixed(inner_env.own());
                        }
                        let closure_env = inner_env.new_inner_from_parts(
                            clone_bindings(lambda.closure.as_slice()),
                            self.unsafe_level(),
                        );
                        closure_env.eval(&*lambda.body, host, depth)
                    },
                }
            },
            Value::Macro(_) => Err(EvalError::Unimplemented),
            _ => Err(EvalError::NotCallable),
        }
    }

    /// The values of a sequence of forms, evaluated from left to right.
    pub fn eval_forms(&self, forms: &[Value], host: &Host, depth: usize) -> (r: Result<
        Vec<Value>,
        EvalError,
    >)
        ensures
            match spec_eval_forms(terms(forms@), Seq::empty(), self@, host@, depth as nat) {
                Ok(vs) => r is Ok && terms(r->Ok_0@) == vs,
                Err(e) => r is Err && r->Err_0@ == e,
            },
        decreases depth, 1nat, 0nat,
    {
        let mut out: Vec<Value> = Vec::new();
        let mut i: usize = 0;
        assert(terms(forms@).skip(0) =~= terms(forms@));
        assert(terms(out@) =~= Seq::<Term>::empty());
        while i < forms.len()
            invariant
                i <= forms.len(),
                spec_eval_forms(terms(forms@), Seq::empty(), self@, host@, depth as nat)
                    == spec_eval_forms(
                    terms(forms@).skip(i as int),
                    terms(out@),
                    self@,
                    host@,
                    depth as nat,
                ),
            decreases forms.len() - i,
        {
            assert(terms(forms@).skip(i as int).skip(1) =~= terms(forms@).skip(i + 1));
            match self.eval(&forms[i], host, depth) {
                Err(e) => {
                    return Err(e);
                },
                Ok(v) => {
                    let ghost before = terms(out@);
                    out.push(v);
                    assert(terms(out@) =~= before.push(v@));
                },
            }
            i += 1;
        }
        Ok(out)
    }

    /// The integers that a sequence of forms evaluates to, from left to
    /// right.
    pub fn eval_integers(&self, forms: &[Value], host: &Host, depth: usize) -> (r: Result<
        Vec<i64>,
        EvalError,
    >)
        ensures
            match spec_integers(terms(forms@), Seq::empty(), self@, host@, depth as nat) {
                Ok(xs) => r is Ok && r->Ok_0@ == xs,
                Err(e) => r is Err && r->Err_0@ == e,
            },
        decreases depth, 1nat, 0nat,
    {
        let mut out: Vec<i64> = Vec::new();
        let mut i: usize = 0;
        assert(terms(forms@).skip(0) =~= terms(forms@));
        while i < forms.len()
            invariant
                i <= forms.len(),
                spec_integers(terms(forms@), Seq::empty(), self@, host@, depth as nat)
                    == spec_integers(
                    terms(forms@).skip(i as int),
                    out@,
                    self@,
                    host@,
                    depth as nat,
                ),
            decreases forms.len() - i,
        {
            assert(terms(forms@).skip(i as int).skip(1) =~= terms(forms@).skip(i + 1));
            match self.eval(&forms[i], host, depth) {
                Err(e) => {
                    return Err(e);
                },
                Ok(v) => match v {
                    Value::Integer(x) => {
                        out.push(x);
                    },
                    _ => {
                        return Err(EvalError::TypeMismatch);
                    },
                },
            }
            i += 1;
        }
        Ok(out)
    }

    /// The names of the symbols that a sequence of forms evaluates to, from
    /// left to right.
    pub fn eval_symbols(&self, forms: &[Value], host: &Host, depth: usize) -> (r: Result<
        Vec<String>,
        EvalError,
    >)
        ensures
            match spec_symbols(terms(forms@), Seq::empty(), self@, host@, depth as nat) {
                Ok(names) => r is Ok && names_of(r->Ok_0@) == names,
                Err(e) => r is Err && r->Err_0@ == e,
            },
        decreases depth, 1nat, 0nat,
    {
        let mut out: Vec<String> = Vec::new();
        let mut i: usize = 0;
        assert(terms(forms@).skip(0) =~= terms(forms@));
        assert(names_of(out@) =~= Seq::<Seq<char>>::empty());
        while i < forms.len()
            invariant
                i <= forms.len(),
                spec_symbols(terms(forms@), Seq::empty(), self@, host@, depth as nat)
                    == spec_symbols(
                    terms(forms@).skip(i as int),
                    names_of(out@),
                    self@,
                    host@,
                    depth as nat,
                ),
            decreases forms.len() - i,
        {
            assert(terms(forms@).skip(i as int).skip(1) =~= terms(forms@).skip(i + 1));
            match self.eval(&forms[i], host, depth) {
                Err(e) => {
                    return Err(e);
                },
                Ok(v) => match v {
                    Value::Symbol(name) => {
                        let ghost before = names_of(out@);
                        out.push(name);
                        assert(names_of(out@) =~= before.push(name@));
                    },
                    _ => {
                        return Err(EvalError::TypeMismatch);
                    },
                },
            }
            i += 1;
        }
        Ok(out)
    }

    /// The frame that a list of `(name value)` pairs describes: each value is
    /// evaluated in this environment, and the names must all be symbols.
    pub fn pairs_frame(&self, pairs: &Value, host: &Host, depth: usize) -> (r: Result<
        Bindings,
        EvalError,
    >)
        ensures
            match spec_pairs_frame(pairs@, self@, host@, depth as nat) {
                Ok(frame) => r is Ok && bindings_model(r->Ok_0@) == frame && unique_names(frame),
                Err(e) => r is Err && r->Err_0@ == e,
            },
        decreases depth, 2nat, 0nat,
    {
        proof {
            pairs.lemma_model();
        }
        match pairs {
            Value::List(l) => {
                let mut names: Vec<Value> = Vec::new();
                let mut values: Vec<Value> = Vec::new();
                let mut i: usize = 0;
                assert(terms(l@).skip(0) =~= terms(l@));
                assert(terms(names@) =~= Seq::<Term>::empty());
                assert(terms(values@) =~= Seq::<Term>::empty());
                while i < l.len()
                    invariant
                        i <= l.len(),
                        pairs@ == Term::List(terms(l@)),
                        spec_pairs(
                            terms(l@),
                            Seq::empty(),
                            Seq::empty(),
                            self@,
                            host@,
                            depth as nat,
                        ) == spec_pairs(
                            terms(l@).skip(i as int),
                            terms(names@),
                            terms(values@),
                            self@,
                            host@,
                            depth as nat,
                        ),
                    decreases l.len() - i,
                {
                    assert(terms(l@).skip(i as int).skip(1) =~= terms(l@).skip(i + 1));
                    proof {
                        l@[i as int].lemma_model();
                    }
                    match &l[i] {
                        Value::List(pair) => {
                            if pair.len() != 2 {
                                return Err(EvalError::MalformedForm);
                            }
                            match self.eval(&pair[1], host, depth) {
                                Err(e) => {
                                    return Err(e);
                                },
                                Ok(v) => {
                                    let ghost names_before = terms(names@);
                                    let ghost values_before = terms(values@);
                                    names.push(pair[0].clone());
                                    values.push(v);
                                    assert(terms(names@) =~= names_before.push(pair@[0]@));
                                    assert(terms(values@) =~= values_before.push(v@));
                                },
                            }
                        },
                        _ => {
                            return Err(EvalError::MalformedForm);
                        },
                    }
                    i += 1;
                }
                bind(names.as_slice(), values.as_slice())
            },
            _ => Err(EvalError::MalformedForm),
        }
    }

    /// The child frame of a call: the parameter list must be a list of
    /// symbols with as many items as there are argument forms; the forms are
    /// evaluated in this environment and bound by position. The child has no
    /// privilege.
    pub fn new_inner_env<'a>(
        &'a self,
        params: &Value,
        arg_forms: &[Value],
        host: &Host,
        depth: usize,
    ) -> (r: Result<LispEnv<'a>, EvalError>)
        ensures
            match spec_inner_frame(params@, terms(arg_forms@), self@, host@, depth as nat) {
                Ok(frame) => r is Ok && r->Ok_0.own() == frame && unique_names(frame)
                    && r->Ok_0@.bindings == self@.bindings + frame && r->Ok_0@.unsafe_level
                    == 0,
                Err(e) => r is Err && r->Err_0@ == e,
            },
        decreases depth, 2nat, 0nat,
    {
        proof {
            params.lemma_model();
        }
        if !params.is_list_of_symbols() {
            return Err(EvalError::TypeMismatch);
        }
        match params {
            Value::List(names) => {
                if names.len() != arg_forms.len() {
                    return Err(EvalError::ArityMismatch);
                }
                match self.eval_forms(arg_forms, host, depth) {
                    Err(e) => Err(e),
                    Ok(values) => {
                        proof {
                            crate::semantics::lemma_eval_forms_len(
                                terms(arg_forms@),
                                Seq::empty(),
                                self@,
                                host@,
                                depth as nat,
                            );
                        }
                        match bind(names.as_slice(), values.as_slice()) {
                            Err(e) => Err(e),
                            Ok(frame) => {
                                proof {
                                    lemma_normalize_fixed(bindings_model(frame@));
                                }
                                Ok(self.new_inner_from_parts(frame, 0))
                            },
                        }
                    },
                }
            },
            _ => Err(EvalError::TypeMismatch),
        }
    }

    /// A child frame that binds the names of a list of `(name value)` pairs
    /// to their values, each evaluated in this environment. The child has no
    /// privilege.
    pub fn new_inner_from_pairs<'a>(&'a self, pairs: &Value, host: &Host, depth: usize) -> (r:
        Result<LispEnv<'a>, EvalError>)
        ensures
            match spec_pairs_frame(pairs@, self@, host@, depth as nat) {
                Ok(frame) => r is Ok && r->Ok_0.own() == frame && unique_names(frame)
                    && r->Ok_0@.bindings == self@.bindings + frame && r->Ok_0@.unsafe_level
                    == 0,
                Err(e) => r is Err && r->Err_0@ == e,
            },
    {
        match self.pairs_frame(pairs, host, depth) {
            Err(e) => Err(e),
            Ok(frame) => {
                proof {
                    lemma_normalize_fixed(bindings_model(frame@));
                }
                Ok(self.new_inner_from_parts(frame, 0))
            },
        }
    }
}

} // verus!
