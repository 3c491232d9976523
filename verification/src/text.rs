//! Characters and text: the helpers that the reader and the printer share.

use vstd::prelude::*;

verus! {

/// Whether a character is white space: the code points that carry the
/// Unicode property White_Space.
pub open spec fn is_space(c: char) -> bool {
    let n = c as u32;
    ||| 0x09 <= n <= 0x0D
    ||| n == 0x20
    ||| n == 0x85
    ||| n == 0xA0
    ||| n == 0x1680
    ||| 0x2000 <= n <= 0x200A
    ||| n == 0x2028
    ||| n == 0x2029
    ||| n == 0x202F
    ||| n == 0x205F
    ||| n == 0x3000
}

/// Whether a character is a decimal digit.
pub open spec fn is_decimal(c: char) -> bool {
    '0' as u32 <= c as u32 <= '9' as u32
}

/// Whether a character is a digit in base 36: a decimal digit or a letter of
/// the English alphabet, in either case.
pub open spec fn is_alphanumeric(c: char) -> bool {
    ||| is_decimal(c)
    ||| 'a' as u32 <= c as u32 <= 'z' as u32
    ||| 'A' as u32 <= c as u32 <= 'Z' as u32
}

/// Whether a character is white space.
pub fn char_is_space(c: char) -> (r: bool)
    ensures
        r == is_space(c),
{
    let n = c as u32;
    (0x09 <= n && n <= 0x0D) || n == 0x20 || n == 0x85 || n == 0xA0 || n == 0x1680 || (0x2000 <= n
        && n <= 0x200A) || n == 0x2028 || n == 0x2029 || n == 0x202F || n == 0x205F || n == 0x3000
}

/// Whether a character is a decimal digit.
pub fn char_is_decimal(c: char) -> (r: bool)
    ensures
        r == is_decimal(c),
{
    let n = c as u32;
    '0' as u32 <= n && n <= '9' as u32
}

/// Whether a character is a letter of the English alphabet or a decimal digit.
pub fn char_is_alphanumeric(c: char) -> (r: bool)
    ensures
        r == is_alphanumeric(c),
{
    let n = c as u32;
    char_is_decimal(c) || ('a' as u32 <= n && n <= 'z' as u32) || ('A' as u32 <= n && n
        <= 'Z' as u32)
}

/// How many bytes the UTF-8 encoding of a character takes.
pub open spec fn utf8_len(c: char) -> nat {
    let n = c as u32;
    if n < 0x80 {
        1
    } else if n < 0x800 {
        2
    } else if n < 0x10000 {
        3
    } else {
        4
    }
}

/// How many bytes the UTF-8 encoding of a text takes.
pub open spec fn byte_length(s: Seq<char>) -> nat
    decreases s.len(),
{
    if s.len() == 0 {
        0
    } else {
        utf8_len(s[0]) + byte_length(s.drop_first())
    }
}

/// The byte at which the character at position `pos` of a text starts in
/// the UTF-8 encoding of the text.
pub open spec fn byte_offset(s: Seq<char>, pos: nat) -> nat {
    byte_length(s.take(pos as int))
}

/// A character more makes a text longer by the length of the character.
pub proof fn lemma_byte_length_push(s: Seq<char>, c: char)
    ensures
        byte_length(s.push(c)) == byte_length(s) + utf8_len(c),
    decreases s.len(),
{
    if s.len() == 0 {
        assert(s.push(c).drop_first() =~= s);
    } else {
        assert(s.push(c).drop_first() =~= s.drop_first().push(c));
        lemma_byte_length_push(s.drop_first(), c);
    }
}

/// A prefix of a text is at most as long as the text.
pub proof fn lemma_byte_offset_bound(s: Seq<char>, pos: nat)
    requires
        pos <= s.len(),
    ensures
        byte_offset(s, pos) <= byte_length(s),
        pos < s.len() ==> byte_offset(s, pos + 1) == byte_offset(s, pos) + utf8_len(s[pos as int]),
    decreases s.len() - pos,
{
    if pos == s.len() {
        assert(s.take(pos as int) =~= s);
    } else {
        assert(s.take(pos as int + 1) =~= s.take(pos as int).push(s[pos as int]));
        lemma_byte_length_push(s.take(pos as int), s[pos as int]);
        lemma_byte_offset_bound(s, pos + 1);
    }
}

/// The length of a text in bytes is the length of its UTF-8 encoding.
pub proof fn lemma_byte_length_is_encoding(s: Seq<char>)
    ensures
        byte_length(s) == vstd::utf8::encode_utf8(s).len(),
    decreases s.len(),
{
    if s.len() > 0 {
        vstd::utf8::char_is_scalar(s[0]);
        lemma_byte_length_is_encoding(s.drop_first());
    }
}

/// How many bytes the UTF-8 encoding of a character takes.
pub fn char_len_utf8(c: char) -> (r: usize)
    ensures
        r == utf8_len(c),
{
    let n = c as u32;
    if n < 0x80 {
        1
    } else if n < 0x800 {
        2
    } else if n < 0x10000 {
        3
    } else {
        4
    }
}

/// The byte at which each character of a string starts, and after them the
/// length of the string in bytes.
pub fn byte_offsets(s: &str) -> (r: Vec<usize>)
    ensures
        r@.len() == s@.len() + 1,
        forall|i: int| 0 <= i <= s@.len() ==> #[trigger] r@[i] == byte_offset(s@, i as nat),
{
    let chars = chars_of(s);
    let total = s.as_bytes().len();
    proof {
        lemma_byte_length_is_encoding(s@);
    }
    let mut out: Vec<usize> = Vec::new();
    let mut offset: usize = 0;
    let mut i: usize = 0;
    assert(s@.take(0) =~= Seq::<char>::empty());
    while i < chars.len()
        invariant
            chars@ == s@,
            i <= chars.len(),
            total == byte_length(s@),
            offset == byte_offset(s@, i as nat),
            out@.len() == i,
            forall|j: int| 0 <= j < i ==> #[trigger] out@[j] == byte_offset(s@, j as nat),
        decreases chars.len() - i,
    {
        proof {
            lemma_byte_offset_bound(s@, i as nat);
            lemma_byte_offset_bound(s@, (i + 1) as nat);
        }
        out.push(offset);
        offset = offset + char_len_utf8(chars[i]);
        i += 1;
    }
    out.push(offset);
    out
}

/// The characters of a string, in order.
pub fn chars_of(s: &str) -> (r: Vec<char>)
    ensures
        r@ == s@,
{
    broadcast use vstd::string::group_string_axioms;

    let mut out: Vec<char> = Vec::new();
    for c in it: s.chars()
        invariant
            it.seq() == s@,
            out@ == it.seq().take(it.index() as int),
    {
        out.push(c);
        assert(it.seq().take(it.index() + 1) =~= it.seq().take(it.index() as int).push(c));
    }
    assert(s@.take(s@.len() as int) =~= s@);
    out
}

/// Appends a character to a string.
///
/// Trusted: this is `String::push` of the standard library, which appends the
/// given character to the end of the string.
#[verifier::external_body]
fn push_char(s: &mut String, c: char)
    ensures
        final(s)@ == old(s)@.push(c),
{
    s.push(c);
}

/// The string that holds the given characters, in order.
pub fn string_of(chars: &[char]) -> (r: String)
    ensures
        r@ == chars@,
{
    let mut out = String::new();
    let mut i: usize = 0;
    while i < chars.len()
        invariant
            i <= chars.len(),
            out@ == chars@.take(i as int),
        decreases chars.len() - i,
    {
        push_char(&mut out, chars[i]);
        assert(chars@.take(i + 1) =~= chars@.take(i as int).push(chars@[i as int]));
        i += 1;
    }
    assert(chars@.take(chars.len() as int) =~= chars@);
    out
}

/// The order of texts: character by character, by code point, a prefix
/// before what it is a prefix of.
pub open spec fn text_le(a: Seq<char>, b: Seq<char>) -> bool
    decreases a.len(),
{
    if a.len() == 0 {
        true
    } else if b.len() == 0 {
        false
    } else if a[0] != b[0] {
        a[0] < b[0]
    } else {
        text_le(a.skip(1), b.skip(1))
    }
}

/// The strict order of texts: before, and not equal.
pub open spec fn text_lt(a: Seq<char>, b: Seq<char>) -> bool {
    text_le(a, b) && a != b
}

/// Of two texts, one comes before the other or they are equal.
pub proof fn lemma_text_le_total(a: Seq<char>, b: Seq<char>)
    ensures
        text_le(a, b) || text_le(b, a),
    decreases a.len(),
{
    if a.len() > 0 && b.len() > 0 {
        if a[0] == b[0] {
            lemma_text_le_total(a.skip(1), b.skip(1));
        }
    }
}

/// The order of texts is transitive.
pub proof fn lemma_text_le_transitive(a: Seq<char>, b: Seq<char>, c: Seq<char>)
    requires
        text_le(a, b),
        text_le(b, c),
    ensures
        text_le(a, c),
    decreases a.len(),
{
    if a.len() > 0 && b.len() > 0 && c.len() > 0 && a[0] == b[0] && b[0] == c[0] {
        lemma_text_le_transitive(a.skip(1), b.skip(1), c.skip(1));
    }
}

/// Whether `a` comes before `b` in the order of texts, or equals it.
pub fn text_le_exec(a: &str, b: &str) -> (r: bool)
    ensures
        r == text_le(a@, b@),
{
    let x = chars_of(a);
    let y = chars_of(b);
    let mut i: usize = 0;
    assert(x@.skip(0) =~= x@);
    assert(y@.skip(0) =~= y@);
    while i < x.len()
        invariant
            x@ == a@,
            y@ == b@,
            i <= x.len(),
            i <= y.len(),
            text_le(a@, b@) == text_le(x@.skip(i as int), y@.skip(i as int)),
        decreases x.len() - i,
    {
        if i >= y.len() {
            return false;
        }
        if x[i] != y[i] {
            return x[i] < y[i];
        }
        assert(x@.skip(i as int).skip(1) =~= x@.skip(i + 1));
        assert(y@.skip(i as int).skip(1) =~= y@.skip(i + 1));
        i += 1;
    }
    true
}

} // verus!
