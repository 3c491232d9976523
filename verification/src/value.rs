//! The unified value representation: atoms, lists, primitives, closures and
//! macros, together with the mathematical model that every contract in this
//! crate is stated over.

use vstd::prelude::*;

verus! {

/// The primitive operations of the language. A primitive receives its
/// argument forms unevaluated and decides itself which of them to evaluate.
#[derive(Clone, Copy, Debug, PartialEq, Eq, Structural)]
pub enum Builtin {
    Cons,
    Car,
    Cdr,
    Quote,
    Eq,
    Macro,
    Fn,
    If,
    Atom,
    Lt,
    Gt,
    Add,
    Sub,
    List,
    Let,
    Eval,
    Unsafe,
    SpookyAdd,
    Lua,
    Readf,
    Include,
}

/// A runtime value, which is also the syntax tree of a program.
#[derive(Debug)]
pub enum Value {
    Bool(bool),
    Integer(i64),
    Symbol(String),
    /// An ordered sequence of values; the empty list is nil.
    List(Vec<Value>),
    /// A primitive that may always be called.
    Func(Builtin),
    /// A primitive that may be called only under positive privilege.
    UnsafeFunc(Builtin),
    Macro(MacroValue),
    Lambda(LambdaValue),
}

/// The name under which the environment and the evaluator speak of values.
pub type LispValue = Value;

/// A macro: parameter symbols and a body that is substituted, never evaluated
/// as a function.
#[derive(Debug)]
pub struct MacroValue {
    pub params: Vec<Value>,
    pub body: Box<Value>,
}

/// A user-defined closure: its parameter list, its body and a snapshot of
/// every binding that was visible where it was created. A snapshot that the
/// evaluator takes binds each name once; of any other, the frame that a call
/// makes of it keeps the last write of a name.
#[derive(Debug)]
pub struct LambdaValue {
    pub args: Box<Value>,
    pub body: Box<Value>,
    pub closure: Vec<(String, Value)>,
}

/// The mathematical model of a [`Value`].
pub enum Term {
    Bool(bool),
    Integer(i64),
    Symbol(Seq<char>),
    List(Seq<Term>),
    Func(Builtin),
    UnsafeFunc(Builtin),
    Macro { params: Seq<Term>, body: Box<Term> },
    Lambda { args: Box<Term>, body: Box<Term>, closure: Seq<(Seq<char>, Term)> },
}

/// The model of a sequence of values, element by element.
pub open spec fn terms(values: Seq<Value>) -> Seq<Term> {
    Seq::new(values.len(), |i: int| values[i].model())
}

/// The model of a sequence of name/value bindings, element by element.
pub open spec fn bindings_model(bindings: Seq<(String, Value)>) -> Seq<(Seq<char>, Term)> {
    Seq::new(bindings.len(), |i: int| (bindings[i].0@, bindings[i].1.model()))
}

/// The nil term: the empty list.
pub open spec fn nil_term() -> Term {
    Term::List(Seq::empty())
}

/// Whether every term of a sequence is a symbol.
pub open spec fn all_symbols(ts: Seq<Term>) -> bool {
    forall|i: int| 0 <= i < ts.len() ==> (#[trigger] ts[i]) is Symbol
}

/// Whether a term is an atom: anything but a non-empty list.
pub open spec fn term_is_atom(t: Term) -> bool {
    !(t is List) || t->List_0.len() == 0
}

/// Structural equality of terms. Booleans, integers, symbols and lists are
/// compared by value; a primitive, closure or macro equals nothing, not even
/// itself, so the relation is not reflexive.
pub open spec fn term_eq(a: Term, b: Term) -> bool
    decreases a,
{
    match (a, b) {
        (Term::Bool(x), Term::Bool(y)) => x == y,
        (Term::Integer(x), Term::Integer(y)) => x == y,
        (Term::Symbol(x), Term::Symbol(y)) => x == y,
        (Term::List(x), Term::List(y)) => x.len() == y.len() && forall|i: int|
            0 <= i < x.len() ==> term_eq(#[trigger] x[i], y[i]),
        _ => false,
    }
}

impl Value {
    /// The model of this value.
    pub open spec fn model(&self) -> Term
        decreases self,
    {
        match self {
            Value::Bool(b) => Term::Bool(*b),
            Value::Integer(i) => Term::Integer(*i),
            Value::Symbol(s) => Term::Symbol(s@),
            Value::List(l) => Term::List(
                Seq::new(
                    l@.len(),
                    |i: int|
                        if 0 <= i < l@.len() {
                            l@[i].model()
                        } else {
                            nil_term()
                        },
                ),
            ),
            Value::Func(f) => Term::Func(*f),
            Value::UnsafeFunc(f) => Term::UnsafeFunc(*f),
            Value::Macro(m) => Term::Macro {
                params: Seq::new(
                    m.params@.len(),
                    |i: int|
                        if 0 <= i < m.params@.len() {
                            m.params@[i].model()
                        } else {
                            nil_term()
                        },
                ),
                body: Box::new(m.body.model()),
            },
            Value::Lambda(lam) => Term::Lambda {
                args: Box::new(lam.args.model()),
                body: Box::new(lam.body.model()),
                closure: Seq::new(
                    lam.closure@.len(),
                    |i: int|
                        if 0 <= i < lam.closure@.len() {
                            (lam.closure@[i].0@, lam.closure@[i].1.model())
                        } else {
                            (Seq::empty(), nil_term())
                        },
                ),
            },
        }
    }

    /// Unfolds the model of a value one level, in terms of [`terms`] and
    /// [`bindings_model`].
    pub proof fn lemma_model(&self)
        ensures
            self matches Value::Bool(b) ==> self@ == Term::Bool(*b),
            self matches Value::Integer(i) ==> self@ == Term::Integer(*i),
            self matches Value::Symbol(s) ==> self@ == Term::Symbol(s@),
            self matches Value::List(l) ==> self@ == Term::List(terms(l@)),
            self matches Value::Func(f) ==> self@ == Term::Func(*f),
            self matches Value::UnsafeFunc(f) ==> self@ == Term::UnsafeFunc(*f),
            self matches Value::Macro(m) ==> self@ == (Term::Macro {
                params: terms(m.params@),
                body: Box::new(m.body@),
            }),
            self matches Value::Lambda(lam) ==> self@ == (Term::Lambda {
                args: Box::new(lam.args@),
                body: Box::new(lam.body@),
                closure: bindings_model(lam.closure@),
            }),
    {
        match self {
            Value::List(l) => {
                assert(self.model()->List_0 =~= terms(l@));
            },
            Value::Macro(m) => {
                assert(self.model()->Macro_params =~= terms(m.params@));
            },
            Value::Lambda(lam) => {
                assert(self.model()->Lambda_closure =~= bindings_model(lam.closure@));
            },
            _ => {},
        }
    }
}

impl MacroValue {
    /// A macro of its parts.
    pub fn new(params: Vec<Value>, body: Box<Value>) -> (r: MacroValue)
        ensures
            r.params == params,
            r.body == body,
    {
        MacroValue { params, body }
    }
}

impl LambdaValue {
    /// A closure of its parts.
    pub fn new(args: Box<Value>, body: Box<Value>, closure: Vec<(String, Value)>) -> (r:
        LambdaValue)
        ensures
            r.args == args,
            r.body == body,
            r.closure == closure,
    {
        LambdaValue { args, body, closure }
    }
}

/// A copy of a slice of values as a vector with the same model.
pub fn clone_values(values: &[Value]) -> (r: Vec<Value>)
    ensures
        terms(r@) == terms(values@),
{
    let mut out: Vec<Value> = Vec::new();
    let mut i: usize = 0;
    while i < values.len()
        invariant
            i <= values.len(),
            out@.len() == i,
            forall|j: int| 0 <= j < i ==> (#[trigger] out@[j])@ == values@[j]@,
        decreases values.len() - i,
    {
        out.push(values[i].clone());
        i += 1;
    }
    assert(terms(out@) =~= terms(values@));
    out
}

/// A copy of a sequence of bindings with the same model.
pub fn clone_bindings(bindings: &[(String, Value)]) -> (r: Vec<(String, Value)>)
    ensures
        bindings_model(r@) == bindings_model(bindings@),
{
    let mut out: Vec<(String, Value)> = Vec::new();
    let mut i: usize = 0;
    while i < bindings.len()
        invariant
            i <= bindings.len(),
            out@.len() == i,
            forall|j: int|
                0 <= j < i ==> (#[trigger] out@[j]).0@ == bindings@[j].0@ && out@[j].1@
                    == bindings@[j].1@,
        decreases bindings.len() - i,
    {
        let name = bindings[i].0.clone();
        let value = bindings[i].1.clone();
        out.push((name, value));
        i += 1;
    }
    assert(bindings_model(out@) =~= bindings_model(bindings@));
    out
}

impl Value {
    /// Copies the value. Every value of the current model can be copied, so
    /// the result is always `Ok`.
    pub fn fallible_clone(&self) -> (r: Result<Value, crate::eval::EvalError>)
        ensures
            r is Ok,
            r->Ok_0@ == self@,
    {
        Ok(self.clone())
    }

    /// The symbol of a name.
    pub fn symbol(name: &str) -> (r: Value)
        ensures
            r@ == Term::Symbol(name@),
    {
        Value::Symbol(name.to_string())
    }

    /// The empty list.
    pub fn nil() -> (r: Value)
        ensures
            r@ == nil_term(),
    {
        let r = Value::List(Vec::new());
        proof {
            r.lemma_model();
            assert(terms(Seq::<Value>::empty()) =~= Seq::<Term>::empty());
        }
        r
    }

    /// The form `(quote v)`.
    pub fn quoted(v: Value) -> (r: Value)
        ensures
            r@ == Term::List(seq![Term::Symbol("quote"@), v@]),
    {
        let mut items: Vec<Value> = Vec::new();
        items.push(Value::Symbol("quote".to_string()));
        items.push(v);
        let r = Value::List(items);
        proof {
            r.lemma_model();
            items@[0].lemma_model();
            assert(terms(items@) =~= seq![Term::Symbol("quote"@), v@]);
        }
        r
    }

    /// Puts `head` in front of the list `tail`; `None` when `tail` is no list.
    pub fn cons(head: &Value, tail: &Value) -> (r: Option<Value>)
        ensures
            tail@ is List ==> r is Some && r->Some_0@ == Term::List(
                seq![head@] + tail@->List_0,
            ),
            !(tail@ is List) ==> r is None,
    {
        proof {
            tail.lemma_model();
        }
        match tail {
            Value::List(l) => {
                let mut items: Vec<Value> = Vec::new();
                items.push(head.clone());
                let mut i: usize = 0;
                while i < l.len()
                    invariant
                        i <= l.len(),
                        items@.len() == i + 1,
                        items@[0]@ == head@,
                        forall|j: int| 1 <= j <= i ==> (#[trigger] items@[j])@ == l@[j - 1]@,
                    decreases l.len() - i,
                {
                    items.push(l[i].clone());
                    i += 1;
                }
                let r = Value::List(items);
                proof {
                    r.lemma_model();
                    assert(terms(items@) =~= seq![head@] + terms(l@));
                }
                Some(r)
            },
            _ => None,
        }
    }

    /// The first item of a list, nil for the empty list; `None` when the
    /// value is no list.
    pub fn head(&self) -> (r: Option<Value>)
        ensures
            self@ is List ==> r is Some && r->Some_0@ == (if self@->List_0.len() == 0 {
                nil_term()
            } else {
                self@->List_0[0]
            }),
            !(self@ is List) ==> r is None,
    {
        proof {
            self.lemma_model();
        }
        match self {
            Value::List(l) => {
                if l.len() == 0 {
                    Some(Value::nil())
                } else {
                    Some(l[0].clone())
                }
            },
            _ => None,
        }
    }

    /// The list without its first item, nil for the empty list; `None` when
    /// the value is no list.
    pub fn tail(&self) -> (r: Option<Value>)
        ensures
            self@ is List ==> r is Some && r->Some_0@ == (if self@->List_0.len() == 0 {
                nil_term()
            } else {
                Term::List(self@->List_0.subrange(1, self@->List_0.len() as int))
            }),
            !(self@ is List) ==> r is None,
    {
        proof {
            self.lemma_model();
        }
        match self {
            Value::List(l) => {
                if l.len() == 0 {
                    Some(Value::nil())
                } else {
                    let rest = vstd::slice::slice_subrange(l.as_slice(), 1, l.len());
                    let items = clone_values(rest);
                    let r = Value::List(items);
                    proof {
                        r.lemma_model();
                        assert(terms(rest@) =~= terms(l@).subrange(1, l@.len() as int));
                    }
                    Some(r)
                }
            },
            _ => None,
        }
    }

    /// The items of a list; `None` when the value is no list.
    pub fn get_list(&self) -> (r: Option<&[Value]>)
        ensures
            self@ is List ==> r is Some && terms(r->Some_0@) == self@->List_0,
            !(self@ is List) ==> r is None,
    {
        proof {
            self.lemma_model();
        }
        match self {
            Value::List(l) => Some(l.as_slice()),
            _ => None,
        }
    }

    /// The integer; `None` when the value is no integer.
    pub fn get_int(&self) -> (r: Option<i64>)
        ensures
            r == (if self@ is Integer {
                Some(self@->Integer_0)
            } else {
                None
            }),
    {
        match self {
            Value::Integer(i) => Some(*i),
            _ => None,
        }
    }

    /// The name of the symbol; `None` when the value is no symbol.
    pub fn get_symbol(&self) -> (r: Option<&String>)
        ensures
            self@ is Symbol ==> r is Some && r->Some_0@ == self@->Symbol_0,
            !(self@ is Symbol) ==> r is None,
    {
        match self {
            Value::Symbol(s) => Some(s),
            _ => None,
        }
    }

    /// The boolean; `None` when the value is no boolean.
    pub fn get_bool(&self) -> (r: Option<bool>)
        ensures
            r == (if self@ is Bool {
                Some(self@->Bool_0)
            } else {
                None
            }),
    {
        match self {
            Value::Bool(b) => Some(*b),
            _ => None,
        }
    }

    /// Whether the value is the empty list.
    pub fn is_nil(&self) -> (r: bool)
        ensures
            r == (self@ == nil_term()),
    {
        proof {
            self.lemma_model();
        }
        match self {
            Value::List(l) => {
                let empty = l.len() == 0;
                proof {
                    assert(terms(l@).len() == l@.len());
                    if empty {
                        assert(terms(l@) =~= Seq::<Term>::empty());
                    }
                }
                empty
            },
            _ => false,
        }
    }

    /// Whether the value is a list, empty or not.
    pub fn is_list(&self) -> (r: bool)
        ensures
            r == (self@ is List),
    {
        match self {
            Value::List(_) => true,
            _ => false,
        }
    }

    /// Whether the value is an atom: anything but a non-empty list.
    pub fn is_atom(&self) -> (r: bool)
        ensures
            r == term_is_atom(self@),
    {
        proof {
            self.lemma_model();
        }
        match self {
            Value::List(l) => l.len() == 0,
            _ => true,
        }
    }

    /// Whether the value is a symbol.
    pub fn is_symbol(&self) -> (r: bool)
        ensures
            r == (self@ is Symbol),
    {
        match self {
            Value::Symbol(_) => true,
            _ => false,
        }
    }

    /// Whether the value is a list all of whose items are symbols.
    pub fn is_list_of_symbols(&self) -> (r: bool)
        ensures
            r == (self@ is List && all_symbols(self@->List_0)),
    {
        proof {
            self.lemma_model();
        }
        match self {
            Value::List(l) => {
                let mut i: usize = 0;
                while i < l.len()
                    invariant
                        i <= l.len(),
                        self@ == Term::List(terms(l@)),
                        forall|j: int| 0 <= j < i ==> (#[trigger] terms(l@)[j]) is Symbol,
                    decreases l.len() - i,
                {
                    if !l[i].is_symbol() {
                        assert(!(terms(l@)[i as int] is Symbol));
                        return false;
                    }
                    i += 1;
                }
                true
            },
            _ => false,
        }
    }
}

impl View for Value {
    type V = Term;

    open spec fn view(&self) -> Term {
        self.model()
    }
}

impl Clone for Value {
    /// A deep copy: the result has the same model as `self`.
    fn clone(&self) -> (r: Self)
        ensures
            r@ == self@,
        decreases self,
    {
        proof {
            self.lemma_model();
        }
        let r = match self {
            Value::Bool(b) => Value::Bool(*b),
            Value::Integer(i) => Value::Integer(*i),
            Value::Symbol(s) => Value::Symbol(s.clone()),
            Value::List(l) => {
                let mut out: Vec<Value> = Vec::new();
                let mut i: usize = 0;
                while i < l.len()
                    invariant
                        self == Value::List(*l),
                        i <= l.len(),
                        out@.len() == i,
                        forall|j: int| 0 <= j < i ==> (#[trigger] out@[j])@ == l@[j]@,
                    decreases l.len() - i,
                {
                    proof {
                        assert(decreases_to!(self => self->List_0@[i as int]));
                    }
                    out.push(l[i].clone());
                    i += 1;
                }
                assert(terms(out@) =~= terms(l@));
                Value::List(out)
            },
            Value::Func(f) => Value::Func(*f),
            Value::UnsafeFunc(f) => Value::UnsafeFunc(*f),
            Value::Macro(m) => {
                let mut out: Vec<Value> = Vec::new();
                let mut i: usize = 0;
                while i < m.params.len()
                    invariant
                        self == Value::Macro(*m),
                        i <= m.params.len(),
                        out@.len() == i,
                        forall|j: int| 0 <= j < i ==> (#[trigger] out@[j])@ == m.params@[j]@,
                    decreases m.params.len() - i,
                {
                    proof {
                        assert(decreases_to!(self => self->Macro_0.params@[i as int]));
                    }
                    out.push(m.params[i].clone());
                    i += 1;
                }
                assert(terms(out@) =~= terms(m.params@));
                let body = (*m.body).clone();
                Value::Macro(MacroValue { params: out, body: Box::new(body) })
            },
            Value::Lambda(lam) => {
                let mut out: Vec<(String, Value)> = Vec::new();
                let mut i: usize = 0;
                while i < lam.closure.len()
                    invariant
                        self == Value::Lambda(*lam),
                        i <= lam.closure.len(),
                        out@.len() == i,
                        forall|j: int|
                            0 <= j < i ==> (#[trigger] out@[j]).0@ == lam.closure@[j].0@
                                && out@[j].1@ == lam.closure@[j].1@,
                    decreases lam.closure.len() - i,
                {
                    let name = lam.closure[i].0.clone();
                    proof {
                        assert(decreases_to!(self => self->Lambda_0.closure@[i as int].1));
                    }
                    let value = lam.closure[i].1.clone();
                    out.push((name, value));
                    i += 1;
                }
                assert(bindings_model(out@) =~= bindings_model(lam.closure@));
                let args = (*lam.args).clone();
                let body = (*lam.body).clone();
                Value::Lambda(
                    LambdaValue { args: Box::new(args), body: Box::new(body), closure: out },
                )
            },
        };
        proof {
            r.lemma_model();
        }
        r
    }
}

impl PartialEq for Value {
    /// Structural equality on booleans, integers, symbols and lists; `false`
    /// whenever a primitive, closure or macro is involved.
    fn eq(&self, other: &Self) -> (r: bool)
        decreases self,
    {
        proof {
            self.lemma_model();
            other.lemma_model();
        }
        match (self, other) {
            (Value::Bool(a), Value::Bool(b)) => *a == *b,
            (Value::Integer(a), Value::Integer(b)) => *a == *b,
            (Value::Symbol(a), Value::Symbol(b)) => *a == *b,
            (Value::List(a), Value::List(b)) => {
                if a.len() != b.len() {
                    return false;
                }
                let mut i: usize = 0;
                while i < a.len()
                    invariant
                        self == Value::List(*a),
                        other == Value::List(*b),
                        a.len() == b.len(),
                        i <= a.len(),
                        forall|j: int| 0 <= j < i ==> term_eq(#[trigger] a@[j]@, b@[j]@),
                        self@ == Term::List(terms(a@)),
                        other@ == Term::List(terms(b@)),
                    decreases a.len() - i,
                {
                    if !a[i].eq(&b[i]) {
                        assert(!term_eq(terms(a@)[i as int], terms(b@)[i as int]));
                        return false;
                    }
                    i += 1;
                }
                assert forall|j: int| 0 <= j < terms(a@).len() implies term_eq(
                    #[trigger] terms(a@)[j],
                    terms(b@)[j],
                ) by {
                    assert(term_eq(a@[j]@, b@[j]@));
                }
                true
            },
            _ => false,
        }
    }
}

impl vstd::std_specs::cmp::PartialEqSpecImpl for Value {
    open spec fn obeys_eq_spec() -> bool {
        true
    }

    open spec fn eq_spec(&self, other: &Self) -> bool {
        term_eq(self@, other@)
    }
}

impl From<bool> for Value {
    fn from(v: bool) -> (r: Value) {
        Value::Bool(v)
    }
}

impl vstd::std_specs::convert::FromSpecImpl<bool> for Value {
    open spec fn obeys_from_spec() -> bool {
        true
    }

    open spec fn from_spec(v: bool) -> Value {
        Value::Bool(v)
    }
}

impl From<i64> for Value {
    fn from(v: i64) -> (r: Value) {
        Value::Integer(v)
    }
}

impl vstd::std_specs::convert::FromSpecImpl<i64> for Value {
    open spec fn obeys_from_spec() -> bool {
        true
    }

    open spec fn from_spec(v: i64) -> Value {
        Value::Integer(v)
    }
}

impl From<()> for Value {
    /// Nil.
    fn from(v: ()) -> (r: Value)
        ensures
            r@ == nil_term(),
    {
        Value::nil()
    }
}

impl vstd::std_specs::convert::FromSpecImpl<()> for Value {
    /// What `from` returns is stated on `from` itself, over the model: the
    /// value holds a vector, which no specification can name.
    open spec fn obeys_from_spec() -> bool {
        false
    }

    /// Some value whose model is nil.
    open spec fn from_spec(v: ()) -> Value {
        choose|r: Value| r@ == nil_term()
    }
}

impl<'a> From<&'a str> for Value {
    /// The symbol of a name.
    fn from(v: &'a str) -> (r: Value)
        ensures
            r@ == Term::Symbol(v@),
    {
        Value::symbol(v)
    }
}

impl<'a> vstd::std_specs::convert::FromSpecImpl<&'a str> for Value {
    /// What `from` returns is stated on `from` itself, over the model: the
    /// value holds a string, which no specification can name.
    open spec fn obeys_from_spec() -> bool {
        false
    }

    /// Some value whose model is the symbol of the name.
    open spec fn from_spec(v: &'a str) -> Value {
        choose|r: Value| r@ == Term::Symbol(v@)
    }
}

} // verus!
