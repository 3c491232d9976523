//! The scanner: source text to tokens.

use vstd::prelude::*;
use vstd::string::StrSliceExecFns;
use crate::text::{
    byte_offset,
    byte_offsets,
    char_is_alphanumeric,
    char_is_decimal,
    char_is_space,
    chars_of,
    is_alphanumeric,
    is_decimal,
    is_space,
};

verus! {

/// What a token is.
#[derive(Debug)]
pub enum TokenPayload {
    LeftParen,
    RightParen,
    /// The opening `(*` of a remark.
    RemarkStart,
    /// The closing `*)` of a remark.
    RemarkEnd,
    /// A run of letters and digits, and whether it starts with a decimal
    /// digit and so stands for a number.
    Atom(String, bool),
    /// A quote mark and the token behind it.
    Quote(Box<TokenPayload>),
}

/// A token and the range of bytes of the source that it covers.
#[derive(Debug)]
pub struct Token {
    pub payload: TokenPayload,
    pub span: core::ops::Range<usize>,
}

/// The model of a [`TokenPayload`].
pub enum Lexeme {
    LeftParen,
    RightParen,
    RemarkStart,
    RemarkEnd,
    Atom(Seq<char>, bool),
    Quote(Box<Lexeme>),
}

/// The model of a [`Token`]: its payload, and the bytes at which it starts
/// and ends in the UTF-8 encoding of the source.
pub struct TokenModel {
    pub payload: Lexeme,
    pub start: nat,
    pub end: nat,
}

/// The token with the given payload that covers the characters from
/// position `from` up to position `to` of the source.
pub open spec fn token_at(payload: Lexeme, src: Seq<char>, from: nat, to: nat) -> TokenModel {
    TokenModel { payload, start: byte_offset(src, from), end: byte_offset(src, to) }
}

impl TokenPayload {
    /// The model of this payload.
    pub open spec fn model(&self) -> Lexeme
        decreases self,
    {
        match self {
            TokenPayload::LeftParen => Lexeme::LeftParen,
            TokenPayload::RightParen => Lexeme::RightParen,
            TokenPayload::RemarkStart => Lexeme::RemarkStart,
            TokenPayload::RemarkEnd => Lexeme::RemarkEnd,
            TokenPayload::Atom(s, n) => Lexeme::Atom(s@, *n),
            TokenPayload::Quote(inner) => Lexeme::Quote(Box::new(inner.model())),
        }
    }
}

impl View for TokenPayload {
    type V = Lexeme;

    open spec fn view(&self) -> Lexeme {
        self.model()
    }
}

impl View for Token {
    type V = TokenModel;

    open spec fn view(&self) -> TokenModel {
        TokenModel {
            payload: self.payload@,
            start: self.span.start as nat,
            end: self.span.end as nat,
        }
    }
}

impl Token {
    /// A token of its parts.
    pub fn new(payload: TokenPayload, span: core::ops::Range<usize>) -> (r: Token)
        ensures
            r.payload == payload,
            r.span == span,
    {
        Token { payload, span }
    }
}

/// The first position at or after `pos` that holds a line feed, or the length
/// of the source where there is none.
pub open spec fn line_end(src: Seq<char>, pos: nat) -> nat
    decreases src.len() - pos,
{
    if pos >= src.len() || src[pos as int] == '\n' {
        pos
    } else {
        line_end(src, pos + 1)
    }
}

/// The first position at or after `pos` that holds no letter or digit, or the
/// length of the source where there is none.
pub open spec fn atom_end(src: Seq<char>, pos: nat) -> nat
    decreases src.len() - pos,
{
    if pos >= src.len() || !is_alphanumeric(src[pos as int]) {
        pos
    } else {
        atom_end(src, pos + 1)
    }
}

/// Whether an atom may end in front of this character.
pub open spec fn ends_atom(c: char) -> bool {
    is_space(c) || c == '(' || c == ')'
}

/// The end of a line is at or after the position and within the source.
pub proof fn lemma_line_end_bounds(src: Seq<char>, pos: nat)
    requires
        pos <= src.len(),
    ensures
        pos <= line_end(src, pos) <= src.len(),
    decreases src.len() - pos,
{
    if pos < src.len() && src[pos as int] != '\n' {
        lemma_line_end_bounds(src, pos + 1);
    }
}

/// The end of an atom is at or after the position and within the source,
/// and after the position where a letter or digit stands there.
pub proof fn lemma_atom_end_bounds(src: Seq<char>, pos: nat)
    requires
        pos <= src.len(),
    ensures
        pos <= atom_end(src, pos) <= src.len(),
        pos < src.len() && is_alphanumeric(src[pos as int]) ==> pos < atom_end(src, pos),
    decreases src.len() - pos,
{
    if pos < src.len() && is_alphanumeric(src[pos as int]) {
        lemma_atom_end_bounds(src, pos + 1);
    }
}

/// The token that starts at or after position `pos` of the source, if there
/// is one, and the position at which scanning goes on after it.
///
/// White space and line comments (`;` to the end of the line) are skipped. An
/// atom is a maximal run of letters and digits; it is a token only where white
/// space, a parenthesis or the end of the source follows, and otherwise it is
/// dropped together with the character behind it. A character that starts no
/// token ends the scan.
pub open spec fn spec_scan(src: Seq<char>, pos: nat) -> (Option<TokenModel>, nat)
    decreases src.len() - pos,
{
    if pos >= src.len() {
        (None, pos)
    } else {
        let c = src[pos as int];
        if c == ';' {
            proof {
                lemma_line_end_bounds(src, pos + 1);
            }
            spec_scan(src, line_end(src, pos + 1))
        } else if c == '(' {
            if pos + 1 >= src.len() {
                (None, pos + 1)
            } else if src[pos as int + 1] == '*' {
                (Some(token_at(Lexeme::RemarkStart, src, pos, pos + 1)), pos + 2)
            } else {
                (Some(token_at(Lexeme::LeftParen, src, pos, pos + 1)), pos + 1)
            }
        } else if c == ')' {
            (Some(token_at(Lexeme::RightParen, src, pos, pos + 1)), pos + 1)
        } else if c == '*' {
            if pos + 1 < src.len() && src[pos as int + 1] == ')' {
                (Some(token_at(Lexeme::RemarkEnd, src, pos, pos + 1)), pos + 2)
            } else {
                (None, pos + 1)
            }
        } else if c == '\'' {
            match spec_scan(src, pos + 1) {
                (Some(next), after) => (
                    Some(token_at(Lexeme::Quote(Box::new(next.payload)), src, pos, after)),
                    after,
                ),
                (None, after) => (None, after),
            }
        } else if is_space(c) {
            spec_scan(src, pos + 1)
        } else if is_alphanumeric(c) {
            let end = atom_end(src, pos);
            if end >= src.len() || ends_atom(src[end as int]) {
                (
                    Some(
                        token_at(
                            Lexeme::Atom(src.subrange(pos as int, end as int), is_decimal(c)),
                            src,
                            pos,
                            end,
                        ),
                    ),
                    end,
                )
            } else {
                proof {
                    lemma_atom_end_bounds(src, pos);
                }
                spec_scan(src, end + 1)
            }
        } else {
            (None, pos)
        }
    }
}

/// Every token of the source from position `pos` on, up to the first place
/// where [`spec_scan`] finds none.
pub open spec fn spec_tokens(src: Seq<char>, pos: nat) -> Seq<TokenModel>
    decreases src.len() - pos,
{
    match spec_scan(src, pos) {
        (Some(t), after) => {
            proof {
                lemma_scan_advances(src, pos);
            }
            seq![t] + spec_tokens(src, after)
        },
        (None, _) => Seq::empty(),
    }
}

/// A scan never moves backwards or past the end of the source, and a token
/// covers at least one character.
pub proof fn lemma_scan_advances(src: Seq<char>, pos: nat)
    ensures
        pos <= src.len() ==> pos <= spec_scan(src, pos).1 <= src.len(),
        spec_scan(src, pos).0 is Some ==> pos < spec_scan(src, pos).1 <= src.len(),
    decreases src.len() - pos,
{
    if pos < src.len() {
        let c = src[pos as int];
        if c == ';' {
            lemma_line_end_bounds(src, pos + 1);
            lemma_scan_advances(src, line_end(src, pos + 1));
        } else if c == '(' || c == ')' || c == '*' {
        } else if c == '\'' {
            lemma_scan_advances(src, pos + 1);
        } else if is_space(c) {
            lemma_scan_advances(src, pos + 1);
        } else if is_alphanumeric(c) {
            lemma_atom_end_bounds(src, pos);
            let end = atom_end(src, pos);
            if !(end >= src.len() || ends_atom(src[end as int])) {
                lemma_scan_advances(src, end + 1);
            }
        }
    }
}

/// The character at a position of a text, if the text is that long.
pub fn char_at_index(chars: &[char], index: usize) -> (r: Option<char>)
    ensures
        r == (if index < chars@.len() {
            Some(chars@[index as int])
        } else {
            None
        }),
{
    if index < chars.len() {
        Some(chars[index])
    } else {
        None
    }
}

/// A cursor over a source text that hands out its tokens one by one.
pub struct Scanner<'a> {
    source: &'a str,
    chars: Vec<char>,
    offsets: Vec<usize>,
    cursor: usize,
}

impl<'a> Scanner<'a> {
    #[verifier::type_invariant]
    spec fn well_formed(self) -> bool {
        &&& self.chars@ == self.source@
        &&& self.cursor <= self.chars@.len()
        &&& self.offsets@.len() == self.chars@.len() + 1
        &&& forall|i: int|
            0 <= i <= self.chars@.len() ==> #[trigger] self.offsets@[i] == byte_offset(
                self.source@,
                i as nat,
            )
    }

    /// The source text.
    pub closed spec fn text(&self) -> Seq<char> {
        self.source@
    }

    /// The position, in characters, at which the next scan starts.
    pub closed spec fn position(&self) -> nat {
        self.cursor as nat
    }

    /// A scanner at the start of `source`.
    pub fn new(source: &'a str) -> (r: Scanner<'a>)
        ensures
            r.text() == source@,
            r.position() == 0,
    {
        let chars = chars_of(source);
        let offsets = byte_offsets(source);
        Scanner { source, chars, offsets, cursor: 0 }
    }

    /// The next token, if there is one; the cursor moves behind it.
    pub fn scan_token(&mut self) -> (r: Option<Token>)
        ensures
            final(self).text() == old(self).text(),
            final(self).position() == spec_scan(old(self).text(), old(self).position()).1,
            match spec_scan(old(self).text(), old(self).position()).0 {
                Some(t) => r is Some && r->Some_0@ == t,
                None => r is None,
            },
        decreases old(self).text().len() - old(self).position(),
    {
        proof {
            use_type_invariant(&*self);
        }
        let ghost src = self.source@;
        let ghost start = self.cursor as nat;
        let len = self.chars.len();
        loop
            invariant
                self.source == old(self).source,
                self.chars == old(self).chars,
                self.offsets == old(self).offsets,
                src == self.source@,
                self.chars@ == src,
                len == src.len(),
                self.offsets@.len() == len + 1,
                forall|i: int|
                    0 <= i <= len ==> #[trigger] self.offsets@[i] == byte_offset(src, i as nat),
                start == old(self).cursor,
                start <= self.cursor <= len,
                spec_scan(src, self.cursor as nat) == spec_scan(src, start),
            decreases len - self.cursor,
        {
            let pos = self.cursor;
            let ch = match char_at_index(self.chars.as_slice(), pos) {
                Some(ch) => ch,
                None => {
                    return None;
                },
            };
            if ch == ';' {
                let mut p = pos + 1;
                while p < len && self.chars[p] != '\n'
                    invariant
                        self.chars@ == src,
                        len == src.len(),
                        pos + 1 <= p <= len,
                        line_end(src, (pos + 1) as nat) == line_end(src, p as nat),
                    decreases len - p,
                {
                    p += 1;
                }
                self.cursor = p;
            } else if ch == '(' {
                self.cursor = pos + 1;
                if self.cursor >= len {
                    return None;
                }
                if self.chars[self.cursor] == '*' {
                    self.cursor = pos + 2;
                    return Some(
                        Token::new(
                            TokenPayload::RemarkStart,
                            core::ops::Range { start: self.offsets[pos], end: self.offsets[pos + 1] },
                        ),
                    );
                }
                return Some(
                    Token::new(
                        TokenPayload::LeftParen,
                        core::ops::Range { start: self.offsets[pos], end: self.offsets[pos + 1] },
                    ),
                );
            } else if ch == ')' {
                self.cursor = pos + 1;
                return Some(
                    Token::new(
                        TokenPayload::RightParen,
                        core::ops::Range { start: self.offsets[pos], end: self.offsets[pos + 1] },
                    ),
                );
            } else if ch == '*' {
                self.cursor = pos + 1;
                if self.cursor < len && self.chars[self.cursor] == ')' {
                    self.cursor = pos + 2;
                    return Some(
                        Token::new(
                            TokenPayload::RemarkEnd,
                            core::ops::Range { start: self.offsets[pos], end: self.offsets[pos + 1] },
                        ),
                    );
                }
                return None;
            } else if ch == '\'' {
                self.cursor = pos + 1;
                let next = self.scan_token();
                match next {
                    Some(t) => {
                        proof {
                            use_type_invariant(&*self);
                        }
                        let end = self.offsets[self.cursor];
                        return Some(
                            Token::new(
                                TokenPayload::Quote(Box::new(t.payload)),
                                core::ops::Range { start: self.offsets[pos], end },
                            ),
                        );
                    },
                    None => {
                        return None;
                    },
                }
            } else if char_is_space(ch) {
                self.cursor = pos + 1;
            } else if char_is_alphanumeric(ch) {
                let mut end = pos + 1;
                while end < len && char_is_alphanumeric(self.chars[end])
                    invariant
                        self.chars@ == src,
                        len == src.len(),
                        pos + 1 <= end <= len,
                        atom_end(src, pos as nat) == atom_end(src, end as nat),
                    decreases len - end,
                {
                    end += 1;
                }
                let closed = end >= len || {
                    let c = self.chars[end];
                    char_is_space(c) || c == '(' || c == ')'
                };
                if closed {
                    let text = self.source.substring_char(pos, end);
                    self.cursor = end;
                    return Some(
                        Token::new(
                            TokenPayload::Atom(text.to_string(), char_is_decimal(ch)),
                            core::ops::Range { start: self.offsets[pos], end: self.offsets[end] },
                        ),
                    );
                }
                self.cursor = end + 1;
            } else {
                return None;
            }
        }
    }

    /// Every token from the cursor on, up to the first place where no token
    /// is found.
    pub fn tokens(self) -> (r: Vec<Token>)
        ensures
            token_models(r@) == spec_tokens(self.text(), self.position()),
    {
        let ghost src = self.text();
        let ghost start = self.position();
        let mut scanner = self;
        let mut out: Vec<Token> = Vec::new();
        assert(token_models(out@) =~= Seq::<TokenModel>::empty());
        loop
            invariant
                src == self.text(),
                start == self.position(),
                scanner.text() == src,
                spec_tokens(src, start) == token_models(out@) + spec_tokens(
                    src,
                    scanner.position(),
                ),
            decreases src.len() - scanner.position(),
        {
            proof {
                use_type_invariant(&scanner);
                lemma_scan_advances(src, scanner.position());
            }
            let ghost before = scanner.position();
            let ghost seen = token_models(out@);
            match scanner.scan_token() {
                Some(t) => {
                    out.push(t);
                    assert(token_models(out@) =~= seen.push(t@));
                    assert(seen.push(t@) + spec_tokens(src, scanner.position()) =~= seen + (seq![
                        t@,
                    ] + spec_tokens(src, scanner.position())));
                },
                None => {
                    assert(spec_tokens(src, before) =~= Seq::<TokenModel>::empty());
                    assert(spec_tokens(src, start) =~= token_models(out@));
                    return out;
                },
            }
        }
    }
}

/// The models of a sequence of tokens, element by element.
pub open spec fn token_models(tokens: Seq<Token>) -> Seq<TokenModel> {
    Seq::new(tokens.len(), |i: int| tokens[i]@)
}

} // verus!
