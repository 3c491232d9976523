//! Printing: values and errors as text.

use vstd::prelude::*;
use vstd::string::StringExecFns;
use crate::eval::EvalError;
use crate::parse::ParseError;
use crate::scan::{Lexeme, Token, TokenPayload};
use crate::semantics::Fault;
use crate::value::{Term, Value};

verus! {

/// The character that writes a digit.
pub open spec fn digit_char(d: nat) -> char {
    if d == 0 {
        '0'
    } else if d == 1 {
        '1'
    } else if d == 2 {
        '2'
    } else if d == 3 {
        '3'
    } else if d == 4 {
        '4'
    } else if d == 5 {
        '5'
    } else if d == 6 {
        '6'
    } else if d == 7 {
        '7'
    } else if d == 8 {
        '8'
    } else {
        '9'
    }
}

/// A natural number in decimal digits, without leading zeros.
pub open spec fn nat_text(n: nat) -> Seq<char>
    decreases n,
{
    if n < 10 {
        seq![digit_char(n)]
    } else {
        nat_text(n / 10).push(digit_char(n % 10))
    }
}

/// An integer in decimal digits, with a minus sign where it is negative.
pub open spec fn int_text(i: int) -> Seq<char> {
    if i < 0 {
        seq!['-'] + nat_text((-i) as nat)
    } else {
        nat_text(i as nat)
    }
}

/// A value as an S-expression: a boolean in square brackets, an integer in
/// decimal digits, a symbol by its name, a list as its items between
/// parentheses with one space between two items, and a primitive, closure or
/// macro as a placeholder that shows nothing of what is inside.
pub open spec fn term_text(t: Term) -> Seq<char>
    decreases t,
{
    match t {
        Term::Bool(b) => if b {
            "[true]"@
        } else {
            "[false]"@
        },
        Term::Integer(i) => int_text(i as int),
        Term::Symbol(s) => s,
        Term::List(l) => seq!['('] + terms_text(l) + seq![')'],
        Term::Func(_) => "[Function]"@,
        Term::UnsafeFunc(_) => "[Unsafe Function]"@,
        Term::Macro { .. } => "[Macro]"@,
        Term::Lambda { .. } => "[Lambda]"@,
    }
}

/// The items of a list as text, with one space between two items.
pub open spec fn terms_text(items: Seq<Term>) -> Seq<char>
    decreases items,
{
    if items.len() == 0 {
        Seq::empty()
    } else if items.len() == 1 {
        term_text(items[0])
    } else {
        terms_text(items.drop_last()) + seq![' '] + term_text(items.last())
    }
}

/// The text of a digit.
fn digit_text(d: u64) -> (r: &'static str)
    requires
        d < 10,
    ensures
        r@ == seq![digit_char(d as nat)],
{
    proof {
        reveal_strlit("0");
        reveal_strlit("1");
        reveal_strlit("2");
        reveal_strlit("3");
        reveal_strlit("4");
        reveal_strlit("5");
        reveal_strlit("6");
        reveal_strlit("7");
        reveal_strlit("8");
        reveal_strlit("9");
    }
    let r = if d == 0 {
        "0"
    } else if d == 1 {
        "1"
    } else if d == 2 {
        "2"
    } else if d == 3 {
        "3"
    } else if d == 4 {
        "4"
    } else if d == 5 {
        "5"
    } else if d == 6 {
        "6"
    } else if d == 7 {
        "7"
    } else if d == 8 {
        "8"
    } else {
        "9"
    };
    assert(r@ =~= seq![digit_char(d as nat)]);
    r
}

/// Appends a natural number in decimal digits.
pub fn push_nat(out: &mut String, n: u64)
    ensures
        final(out)@ == old(out)@ + nat_text(n as nat),
    decreases n,
{
    if n >= 10 {
        push_nat(out, n / 10);
    }
    out.append(digit_text(n % 10));
    assert(out@ =~= old(out)@ + nat_text(n as nat));
}

/// Appends an integer in decimal digits.
pub fn push_int(out: &mut String, i: i64)
    ensures
        final(out)@ == old(out)@ + int_text(i as int),
{
    if i < 0 {
        proof {
            reveal_strlit("-");
        }
        out.append("-");
        let magnitude: u64 = (-(i as i128)) as u64;
        push_nat(out, magnitude);
        assert(out@ =~= old(out)@ + int_text(i as int));
    } else {
        push_nat(out, i as u64);
    }
}

/// An integer in decimal digits.
pub fn int_to_text(i: i64) -> (r: String)
    ensures
        r@ == int_text(i as int),
{
    let mut out = String::new();
    push_int(&mut out, i);
    assert(out@ =~= int_text(i as int));
    out
}

impl Value {
    /// Appends the value as an S-expression.
    pub fn push_text(&self, out: &mut String)
        ensures
            final(out)@ == old(out)@ + term_text(self@),
        decreases self,
    {
        proof {
            self.lemma_model();
        }
        match self {
            Value::Bool(b) => {
                if *b {
                    out.append("[true]");
                } else {
                    out.append("[false]");
                }
            },
            Value::Integer(i) => {
                push_int(out, *i);
            },
            Value::Symbol(s) => {
                out.append(s.as_str());
            },
            Value::List(l) => {
                proof {
                    reveal_strlit("(");
                    reveal_strlit(")");
                    reveal_strlit(" ");
                }
                out.append("(");
                let ghost items = crate::value::terms(l@);
                let mut i: usize = 0;
                while i < l.len()
                    invariant
                        self == Value::List(*l),
                        items == crate::value::terms(l@),
                        i <= l.len(),
                        out@ == old(out)@ + seq!['('] + terms_text(items.take(i as int)),
                    decreases l.len() - i,
                {
                    assert(items.take(i + 1).drop_last() =~= items.take(i as int));
                    assert(items.take(i + 1).last() == l@[i as int]@);
                    if i > 0 {
                        proof {
                            reveal_strlit(" ");
                        }
                        out.append(" ");
                    }
                    proof {
                        assert(decreases_to!(self => self->List_0@[i as int]));
                    }
                    l[i].push_text(out);
                    assert(out@ =~= old(out)@ + seq!['('] + terms_text(items.take(i + 1)));
                    i += 1;
                }
                assert(items.take(l.len() as int) =~= items);
                out.append(")");
                assert(out@ =~= old(out)@ + term_text(self@));
            },
            Value::Func(_) => {
                out.append("[Function]");
            },
            Value::UnsafeFunc(_) => {
                out.append("[Unsafe Function]");
            },
            Value::Macro(_) => {
                out.append("[Macro]");
            },
            Value::Lambda(_) => {
                out.append("[Lambda]");
            },
        }
    }

    /// The value as an S-expression.
    pub fn to_text(&self) -> (r: String)
        ensures
            r@ == term_text(self@),
    {
        let mut out = String::new();
        self.push_text(&mut out);
        assert(out@ =~= term_text(self@));
        out
    }
}

/// A token as it is written: a parenthesis or the mark of a remark as it
/// is, an atom between double quotes, and a quote mark in front of what it
/// quotes.
pub open spec fn lexeme_text(l: Lexeme) -> Seq<char>
    decreases l,
{
    match l {
        Lexeme::LeftParen => "("@,
        Lexeme::RightParen => ")"@,
        Lexeme::RemarkStart => "(*"@,
        Lexeme::RemarkEnd => "*)"@,
        Lexeme::Atom(text, _) => "\""@ + text + "\""@,
        Lexeme::Quote(inner) => "'"@ + lexeme_text(*inner),
    }
}

impl TokenPayload {
    /// Appends the token as it is written.
    pub fn push_text(&self, out: &mut String)
        ensures
            final(out)@ == old(out)@ + lexeme_text(self@),
        decreases self,
    {
        match self {
            TokenPayload::LeftParen => {
                out.append("(");
            },
            TokenPayload::RightParen => {
                out.append(")");
            },
            TokenPayload::RemarkStart => {
                out.append("(*");
            },
            TokenPayload::RemarkEnd => {
                out.append("*)");
            },
            TokenPayload::Atom(text, _) => {
                out.append("\"");
                out.append(text.as_str());
                out.append("\"");
                assert(out@ =~= old(out)@ + lexeme_text(self@));
            },
            TokenPayload::Quote(inner) => {
                out.append("'");
                inner.push_text(out);
                assert(out@ =~= old(out)@ + lexeme_text(self@));
            },
        }
    }

    /// The token as it is written.
    pub fn to_text(&self) -> (r: String)
        ensures
            r@ == lexeme_text(self@),
    {
        let mut out = String::new();
        self.push_text(&mut out);
        assert(out@ =~= lexeme_text(self@));
        out
    }
}

impl Token {
    /// The token as it is written.
    pub fn to_text(&self) -> (r: String)
        ensures
            r@ == lexeme_text(self@.payload),
    {
        self.payload.to_text()
    }
}

/// The message of a parse error.
pub open spec fn parse_error_text(e: ParseError) -> Seq<char> {
    match e {
        ParseError::NoToken => "could not get token"@,
        ParseError::UnexpectedRemarkEnd => "unexpected `*)`"@,
        ParseError::UnexpectedRightParen => "unexpected `)`"@,
        ParseError::UnclosedList(start, end) => "could not find closing `)` near "@ + nat_text(
            start as nat,
        ) + ".."@ + nat_text(end as nat),
        ParseError::UnclosedRemark(start, end) => "could not find closing `*)` near "@ + nat_text(
            start as nat,
        ) + ".."@ + nat_text(end as nat),
        ParseError::InvalidQuote => "invalid quote syntax"@,
        ParseError::InvalidInteger => "invalid integer"@,
    }
}

/// The message of an evaluation error.
pub open spec fn fault_text(f: Fault) -> Seq<char> {
    match f {
        Fault::UndeclaredSymbol(name) => "use of undeclared variable "@ + name,
        Fault::ArityMismatch => "wrong number of arguments"@,
        Fault::TypeMismatch => "wrong argument type"@,
        Fault::NotCallable => "value cannot be called"@,
        Fault::PrivilegeDenied => "attempt to call unsafe function without `unsafe`"@,
        Fault::AttemptToClone => "attempt to clone"@,
        Fault::MalformedForm => "wrong argument format"@,
        Fault::Unimplemented => "not implemented"@,
        Fault::DepthExceeded => "calls are nested too deep"@,
        Fault::Syntax(e) => parse_error_text(e),
        Fault::NeedsFile(path) => "file was not read: "@ + path,
        Fault::NeedsScript(path) => "script was not run: "@ + path,
    }
}

impl ParseError {
    /// The message of the error.
    pub fn message(&self) -> (r: String)
        ensures
            r@ == parse_error_text(*self),
    {
        match self {
            ParseError::NoToken => String::from_str("could not get token"),
            ParseError::UnexpectedRemarkEnd => String::from_str("unexpected `*)`"),
            ParseError::UnexpectedRightParen => String::from_str("unexpected `)`"),
            ParseError::UnclosedList(start, end) => {
                let mut out = String::from_str("could not find closing `)` near ");
                push_nat(&mut out, *start as u64);
                out.append("..");
                push_nat(&mut out, *end as u64);
                out
            },
            ParseError::UnclosedRemark(start, end) => {
                let mut out = String::from_str("could not find closing `*)` near ");
                push_nat(&mut out, *start as u64);
                out.append("..");
                push_nat(&mut out, *end as u64);
                out
            },
            ParseError::InvalidQuote => String::from_str("invalid quote syntax"),
            ParseError::InvalidInteger => String::from_str("invalid integer"),
        }
    }
}

impl EvalError {
    /// The message of the error.
    pub fn message(&self) -> (r: String)
        ensures
            r@ == fault_text(self@),
    {
        match self {
            EvalError::UndeclaredSymbol(name) => {
                let mut out = String::from_str("use of undeclared variable ");
                out.append(name.as_str());
                out
            },
            EvalError::ArityMismatch => String::from_str("wrong number of arguments"),
            EvalError::TypeMismatch => String::from_str("wrong argument type"),
            EvalError::NotCallable => String::from_str("value cannot be called"),
            EvalError::PrivilegeDenied => String::from_str(
                "attempt to call unsafe function without `unsafe`",
            ),
            EvalError::AttemptToClone => String::from_str("attempt to clone"),
            EvalError::MalformedForm => String::from_str("wrong argument format"),
            EvalError::Unimplemented => String::from_str("not implemented"),
            EvalError::DepthExceeded => String::from_str("calls are nested too deep"),
            EvalError::Syntax(e) => e.message(),
            EvalError::NeedsFile(path) => {
                let mut out = String::from_str("file was not read: ");
                out.append(path.as_str());
                out
            },
            EvalError::NeedsScript(path) => {
                let mut out = String::from_str("script was not run: ");
                out.append(path.as_str());
                out
            },
        }
    }
}

} // verus!
