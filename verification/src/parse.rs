//! The parser: tokens to a value tree.

use vstd::prelude::*;
use vstd::slice::slice_subrange;
use crate::scan::{token_models, Lexeme, Token, TokenModel, TokenPayload};
use crate::text::is_decimal;
use crate::value::{nil_term, terms, Term, Value};

verus! {

/// Why a sequence of tokens is no expression.
#[derive(Clone, Copy, Debug, PartialEq, Eq, Structural)]
pub enum ParseError {
    /// An expression was expected where the tokens end.
    NoToken,
    /// A `*)` without a remark that it closes.
    UnexpectedRemarkEnd,
    /// A `)` without a list that it closes.
    UnexpectedRightParen,
    /// The tokens end inside a list; the span is that of the last token seen
    /// in it, or empty.
    UnclosedList(usize, usize),
    /// The tokens end inside a remark; the span is that of the last token
    /// seen in it, or empty.
    UnclosedRemark(usize, usize),
    /// A quote mark in front of something that is neither an atom nor a list.
    InvalidQuote,
    /// An atom that starts with a digit and is no decimal number of 64 bits.
    InvalidInteger,
}

/// The number that a sequence of decimal digits writes.
pub open spec fn decimal_value(digits: Seq<char>) -> nat
    decreases digits.len(),
{
    if digits.len() == 0 {
        0
    } else {
        decimal_value(digits.drop_last()) * 10 + (digits.last() as u32 - '0' as u32) as nat
    }
}

/// Whether every character of a sequence is a decimal digit.
pub open spec fn all_decimal(digits: Seq<char>) -> bool {
    forall|i: int| 0 <= i < digits.len() ==> is_decimal(#[trigger] digits[i])
}

/// The value of a longer prefix of digits is at least that of a shorter one.
pub proof fn lemma_decimal_value_monotonic(digits: Seq<char>, k: int)
    requires
        0 <= k <= digits.len(),
        all_decimal(digits),
    ensures
        decimal_value(digits.take(k)) <= decimal_value(digits),
    decreases digits.len() - k,
{
    if k == digits.len() {
        assert(digits.take(k) =~= digits);
    } else {
        lemma_decimal_value_monotonic(digits, k + 1);
        assert(digits.take(k + 1).drop_last() =~= digits.take(k));
    }
}

/// The term that an atom stands for: an integer where the atom is marked as
/// a number, a symbol otherwise.
pub open spec fn spec_parse_atom(text: Seq<char>, is_number: bool) -> Result<Term, ParseError> {
    if !is_number {
        Ok(Term::Symbol(text))
    } else if all_decimal(text) && decimal_value(text) <= i64::MAX {
        Ok(Term::Integer(decimal_value(text) as i64))
    } else {
        Err(ParseError::InvalidInteger)
    }
}

/// The form `(quote t)`.
pub open spec fn quoted_term(t: Term) -> Term {
    Term::List(seq![Term::Symbol("quote"@), t])
}

/// The first expression of a token sequence, and the tokens behind it.
pub open spec fn spec_parse(tokens: Seq<TokenModel>) -> Result<
    (Term, Seq<TokenModel>),
    ParseError,
>
    decreases tokens.len(), 0nat,
{
    if tokens.len() == 0 {
        Err(ParseError::NoToken)
    } else {
        let rest = tokens.skip(1);
        match tokens[0].payload {
            Lexeme::RemarkStart => spec_read_remark(rest, (0, 0)),
            Lexeme::RemarkEnd => Err(ParseError::UnexpectedRemarkEnd),
            Lexeme::LeftParen => spec_read_seq(rest, Seq::empty(), (0, 0)),
            Lexeme::RightParen => Err(ParseError::UnexpectedRightParen),
            Lexeme::Atom(text, is_number) => match spec_parse_atom(text, is_number) {
                Ok(t) => Ok((t, rest)),
                Err(e) => Err(e),
            },
            Lexeme::Quote(inner) => match *inner {
                Lexeme::LeftParen => match spec_read_seq(rest, Seq::empty(), (0, 0)) {
                    Ok((t, after)) => Ok((quoted_term(t), after)),
                    Err(e) => Err(e),
                },
                Lexeme::Atom(text, is_number) => match spec_parse_atom(text, is_number) {
                    Ok(t) => Ok((quoted_term(t), rest)),
                    Err(e) => Err(e),
                },
                _ => Err(ParseError::InvalidQuote),
            },
        }
    }
}

/// The list whose items so far are `items` and whose further items and
/// closing parenthesis are at the front of `tokens`; `near` is the span of the
/// token seen last.
pub open spec fn spec_read_seq(tokens: Seq<TokenModel>, items: Seq<Term>, near: (nat, nat)) -> Result<
    (Term, Seq<TokenModel>),
    ParseError,
>
    decreases tokens.len(), 1nat,
{
    if tokens.len() == 0 {
        Err(ParseError::UnclosedList(near.0 as usize, near.1 as usize))
    } else if tokens[0].payload is RightParen {
        Ok((Term::List(items), tokens.skip(1)))
    } else {
        match spec_parse(tokens) {
            Err(e) => Err(e),
            Ok((t, rest)) => if rest.len() < tokens.len() {
                spec_read_seq(rest, items.push(t), (tokens[0].start, tokens[0].end))
            } else {
                Err(ParseError::NoToken)
            },
        }
    }
}

/// The remark whose contents and closing `*)` are at the front of `tokens`:
/// the contents must be expressions, and the remark stands for nil.
pub open spec fn spec_read_remark(tokens: Seq<TokenModel>, near: (nat, nat)) -> Result<
    (Term, Seq<TokenModel>),
    ParseError,
>
    decreases tokens.len(), 1nat,
{
    if tokens.len() == 0 {
        Err(ParseError::UnclosedRemark(near.0 as usize, near.1 as usize))
    } else if tokens[0].payload is RemarkEnd {
        Ok((nil_term(), tokens.skip(1)))
    } else {
        match spec_parse(tokens) {
            Err(e) => Err(e),
            Ok((_, rest)) => if rest.len() < tokens.len() {
                spec_read_remark(rest, (tokens[0].start, tokens[0].end))
            } else {
                Err(ParseError::NoToken)
            },
        }
    }
}

/// An expression always takes at least one token, and what is left is a
/// suffix of what was given.
pub proof fn lemma_parse_consumes(tokens: Seq<TokenModel>)
    ensures
        spec_parse(tokens) matches Ok((_, rest)) ==> rest.len() < tokens.len() && rest
            == tokens.skip(tokens.len() - rest.len()),
    decreases tokens.len(), 0nat,
{
    if tokens.len() > 0 {
        let rest = tokens.skip(1);
        assert(rest == tokens.skip(tokens.len() - rest.len()));
        match tokens[0].payload {
            Lexeme::RemarkStart => lemma_read_remark_consumes(rest, (0, 0)),
            Lexeme::LeftParen => lemma_read_seq_consumes(rest, Seq::empty(), (0, 0)),
            Lexeme::Quote(inner) => match *inner {
                Lexeme::LeftParen => lemma_read_seq_consumes(rest, Seq::empty(), (0, 0)),
                _ => {},
            },
            _ => {},
        }
        match spec_parse(tokens) {
            Ok((_, after)) => {
                if after.len() <= rest.len() {
                    assert(rest.skip(rest.len() - after.len()) =~= tokens.skip(
                        tokens.len() - after.len(),
                    ));
                }
            },
            _ => {},
        }
    }
}

/// The same for the rest of a list.
pub proof fn lemma_read_seq_consumes(
    tokens: Seq<TokenModel>,
    items: Seq<Term>,
    near: (nat, nat),
)
    ensures
        spec_read_seq(tokens, items, near) matches Ok((_, rest)) ==> rest.len() < tokens.len()
            && rest == tokens.skip(tokens.len() - rest.len()),
    decreases tokens.len(), 1nat,
{
    if tokens.len() > 0 && !(tokens[0].payload is RightParen) {
        lemma_parse_consumes(tokens);
        match spec_parse(tokens) {
            Ok((t, rest)) => {
                lemma_read_seq_consumes(rest, items.push(t), (tokens[0].start, tokens[0].end));
                match spec_read_seq(tokens, items, near) {
                    Ok((_, after)) => {
                        assert(rest.skip(rest.len() - after.len()) =~= tokens.skip(
                            tokens.len() - after.len(),
                        ));
                    },
                    _ => {},
                }
            },
            _ => {},
        }
    }
}

/// The same for the rest of a remark.
pub proof fn lemma_read_remark_consumes(tokens: Seq<TokenModel>, near: (nat, nat))
    ensures
        spec_read_remark(tokens, near) matches Ok((_, rest)) ==> rest.len() < tokens.len() && rest
            == tokens.skip(tokens.len() - rest.len()),
    decreases tokens.len(), 1nat,
{
    if tokens.len() > 0 && !(tokens[0].payload is RemarkEnd) {
        lemma_parse_consumes(tokens);
        match spec_parse(tokens) {
            Ok((_, rest)) => {
                lemma_read_remark_consumes(rest, (tokens[0].start, tokens[0].end));
                match spec_read_remark(tokens, near) {
                    Ok((_, after)) => {
                        assert(rest.skip(rest.len() - after.len()) =~= tokens.skip(
                            tokens.len() - after.len(),
                        ));
                    },
                    _ => {},
                }
            },
            _ => {},
        }
    }
}

/// The value that an atom stands for.
pub fn parse_atom(token: &str, is_number: bool) -> (r: Result<Value, ParseError>)
    ensures
        match spec_parse_atom(token@, is_number) {
            Ok(t) => r is Ok && r->Ok_0@ == t,
            Err(e) => r == Err::<Value, ParseError>(e),
        },
{
    if !is_number {
        return Ok(Value::Symbol(token.to_string()));
    }
    let digits = crate::text::chars_of(token);
    let mut acc: i64 = 0;
    let mut i: usize = 0;
    while i < digits.len()
        invariant
            is_number,
            digits@ == token@,
            i <= digits.len(),
            0 <= acc,
            acc == decimal_value(digits@.take(i as int)),
            all_decimal(digits@.take(i as int)),
        decreases digits.len() - i,
    {
        let c = digits[i];
        assert(digits@.take(i + 1).drop_last() =~= digits@.take(i as int));
        assert(digits@.take(i + 1).last() == c);
        if !crate::text::char_is_decimal(c) {
            assert(!is_decimal(digits@[i as int]));
            return Err(ParseError::InvalidInteger);
        }
        let d: i128 = (c as u32 - '0' as u32) as i128;
        let next: i128 = acc as i128 * 10 + d;
        if next > i64::MAX as i128 {
            proof {
                if all_decimal(digits@) {
                    lemma_decimal_value_monotonic(digits@, i + 1);
                }
            }
            return Err(ParseError::InvalidInteger);
        }
        acc = next as i64;
        i += 1;
    }
    assert(digits@.take(i as int) =~= digits@);
    Ok(Value::Integer(acc))
}

/// Dropping the first token of a slice drops the first of its models.
proof fn lemma_models_skip(tokens: Seq<Token>, rest: Seq<Token>, from: int)
    requires
        0 <= from <= tokens.len(),
        rest == tokens.subrange(from, tokens.len() as int),
    ensures
        token_models(rest) == token_models(tokens).skip(from),
{
    assert(token_models(rest) =~= token_models(tokens).skip(from));
}

/// The first expression of a token sequence, and the tokens behind it.
pub fn parse<'a>(tokens: &'a [Token]) -> (r: Result<(Value, &'a [Token]), ParseError>)
    ensures
        match spec_parse(token_models(tokens@)) {
            Ok((t, rest)) => r is Ok && r->Ok_0.0@ == t && token_models(r->Ok_0.1@) == rest,
            Err(e) => r is Err && r->Err_0 == e,
        },
    decreases tokens.len(), 0nat,
{
    if tokens.len() == 0 {
        return Err(ParseError::NoToken);
    }
    let rest = slice_subrange(tokens, 1, tokens.len());
    proof {
        lemma_models_skip(tokens@, rest@, 1);
        reveal_with_fuel(TokenPayload::model, 2);
        assert(token_models(tokens@)[0].payload == tokens@[0].payload@);
    }
    match &tokens[0].payload {
        TokenPayload::RemarkStart => read_remark(rest),
        TokenPayload::RemarkEnd => Err(ParseError::UnexpectedRemarkEnd),
        TokenPayload::LeftParen => read_seq(rest),
        TokenPayload::RightParen => Err(ParseError::UnexpectedRightParen),
        TokenPayload::Atom(text, is_number) => {
            match parse_atom(text.as_str(), *is_number) {
                Ok(v) => Ok((v, rest)),
                Err(e) => Err(e),
            }
        },
        TokenPayload::Quote(inner) => {
            match &**inner {
                TokenPayload::LeftParen => {
                    match read_seq(rest) {
                        Ok((v, after)) => Ok((Value::quoted(v), after)),
                        Err(e) => Err(e),
                    }
                },
                TokenPayload::Atom(text, is_number) => {
                    match parse_atom(text.as_str(), *is_number) {
                        Ok(v) => Ok((Value::quoted(v), rest)),
                        Err(e) => Err(e),
                    }
                },
                _ => Err(ParseError::InvalidQuote),
            }
        },
    }
}

/// The items of a list up to its closing parenthesis, and the tokens behind
/// that.
pub fn read_seq<'a>(tokens: &'a [Token]) -> (r: Result<(Value, &'a [Token]), ParseError>)
    ensures
        match spec_read_seq(token_models(tokens@), Seq::empty(), (0, 0)) {
            Ok((t, rest)) => r is Ok && r->Ok_0.0@ == t && token_models(r->Ok_0.1@) == rest,
            Err(e) => r is Err && r->Err_0 == e,
        },
    decreases tokens.len(), 1nat,
{
    let mut res: Vec<Value> = Vec::new();
    let mut xs = tokens;
    let mut near: (usize, usize) = (0, 0);
    assert(terms(res@) =~= Seq::<Term>::empty());
    loop
        invariant
            xs@.len() <= tokens@.len(),
            spec_read_seq(token_models(tokens@), Seq::empty(), (0, 0)) == spec_read_seq(
                token_models(xs@),
                terms(res@),
                (near.0 as nat, near.1 as nat),
            ),
        decreases xs@.len(),
    {
        if xs.len() == 0 {
            return Err(ParseError::UnclosedList(near.0, near.1));
        }
        let rest = slice_subrange(xs, 1, xs.len());
        proof {
            lemma_models_skip(xs@, rest@, 1);
            lemma_parse_consumes(token_models(xs@));
        }
        if let TokenPayload::RightParen = &xs[0].payload {
            let v = Value::List(res);
            proof {
                v.lemma_model();
            }
            return Ok((v, rest));
        }
        let ghost before = terms(res@);
        match parse(xs) {
            Err(e) => {
                return Err(e);
            },
            Ok((exp, new_xs)) => {
                near = (xs[0].span.start, xs[0].span.end);
                res.push(exp);
                assert(terms(res@) =~= before.push(exp@));
                xs = new_xs;
            },
        }
    }
}

/// The contents of a remark up to its closing `*)`, and the tokens behind
/// that. The contents are parsed and dropped: the remark stands for nil.
pub fn read_remark<'a>(tokens: &'a [Token]) -> (r: Result<(Value, &'a [Token]), ParseError>)
    ensures
        match spec_read_remark(token_models(tokens@), (0, 0)) {
            Ok((t, rest)) => r is Ok && r->Ok_0.0@ == t && token_models(r->Ok_0.1@) == rest,
            Err(e) => r is Err && r->Err_0 == e,
        },
    decreases tokens.len(), 1nat,
{
    let mut xs = tokens;
    let mut near: (usize, usize) = (0, 0);
    loop
        invariant
            xs@.len() <= tokens@.len(),
            spec_read_remark(token_models(tokens@), (0, 0)) == spec_read_remark(
                token_models(xs@),
                (near.0 as nat, near.1 as nat),
            ),
        decreases xs@.len(),
    {
        if xs.len() == 0 {
            return Err(ParseError::UnclosedRemark(near.0, near.1));
        }
        let rest = slice_subrange(xs, 1, xs.len());
        proof {
            lemma_models_skip(xs@, rest@, 1);
            lemma_parse_consumes(token_models(xs@));
        }
        if let TokenPayload::RemarkEnd = &xs[0].payload {
            return Ok((Value::nil(), rest));
        }
        match parse(xs) {
            Err(e) => {
                return Err(e);
            },
            Ok((_, new_xs)) => {
                near = (xs[0].span.start, xs[0].span.end);
                xs = new_xs;
            },
        }
    }
}

/// The expression that a source text starts with.
pub open spec fn spec_parse_string(source: Seq<char>) -> Result<Term, ParseError> {
    match spec_parse(crate::scan::spec_tokens(source, 0)) {
        Ok((t, _)) => Ok(t),
        Err(e) => Err(e),
    }
}

/// The expression that a source text starts with. What follows the first
/// expression is not read.
pub fn parse_string(source: &str) -> (r: Result<Value, ParseError>)
    ensures
        match spec_parse_string(source@) {
            Ok(t) => r is Ok && r->Ok_0@ == t,
            Err(e) => r is Err && r->Err_0 == e,
        },
{
    let scanner = crate::scan::Scanner::new(source);
    let tokens = scanner.tokens();
    match parse(tokens.as_slice()) {
        Ok((v, _)) => Ok(v),
        Err(e) => Err(e),
    }
}

} // verus!
