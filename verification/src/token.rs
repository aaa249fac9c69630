//! Tokens and spans: the lexical units the lexer produces, together with the
//! spec-level byte classes and payload functions that describe them.

use crate::interner::{atom_bytes, atom_clone};
use string_cache::DefaultAtom;
use vstd::prelude::*;

verus! {

/// A half-open byte-offset range `[start, end)` into the source buffer.
#[derive(Clone, Copy, PartialEq, Eq, Structural, Debug)]
pub struct Span {
    pub start: usize,
    pub end: usize,
}

impl Span {
    pub fn new(start: usize, end: usize) -> (s: Span)
        ensures
            s.start == start,
            s.end == end,
    {
        Span { start, end }
    }
}

/// The closed set of lexical classes.
#[derive(Clone, Copy, PartialEq, Eq, Structural, Debug)]
pub enum Kind {
    Eof,
    Identifier,
    Keyword,
    Number,
    Str,
    Null,
    Comma,
    Equals,
    OpenParen,
    CloseParen,
    OpenBracket,
    CloseBracket,
    OpenBrace,
    CloseBrace,
    Plus,
    Minus,
    Star,
    Slash,
    StarStar,
    Dot,
    Invalid,
}

/// The fixed keyword set the lexer recognizes.
#[derive(Clone, Copy, PartialEq, Eq, Structural, Debug)]
pub enum Keyword {
    Var,
    Let,
    Const,
    Function,
}

/// A decimal literal's payload, read eagerly at lex time: the digits of the
/// literal with the decimal point removed (`mantissa`) and the count of
/// digits after the point (`scale`), so the value is
/// `mantissa / 10^scale`.
#[derive(Clone, Copy, PartialEq, Eq, Structural, Debug)]
pub struct NumberValue {
    pub mantissa: u64,
    pub scale: usize,
}

/// A token's payload; its variant always matches the token's `Kind`
/// (see `value_matches`).
#[derive(PartialEq, Debug)]
pub enum TokenValue {
    Empty,
    Num(NumberValue),
    Word(Keyword),
    Name(DefaultAtom),
}

/// A classified, span-tagged lexical unit.
#[derive(PartialEq, Debug)]
pub struct Token {
    pub kind: Kind,
    pub value: TokenValue,
    pub span: Span,
}

impl TokenValue {
    pub fn expect_keyword(&self) -> (k: Keyword)
        requires
            self is Word,
        ensures
            k == self->Word_0,
    {
        match self {
            TokenValue::Word(k) => *k,
            _ => vstd::pervasive::unreached(),
        }
    }

    pub fn expect_number(&self) -> (n: NumberValue)
        requires
            self is Num,
        ensures
            n == self->Num_0,
    {
        match self {
            TokenValue::Num(n) => *n,
            _ => vstd::pervasive::unreached(),
        }
    }

    pub fn expect_atom(&self) -> (a: &DefaultAtom)
        requires
            self is Name,
        ensures
            *a == self->Name_0,
    {
        match self {
            TokenValue::Name(a) => a,
            _ => vstd::pervasive::unreached(),
        }
    }
}

/// Payload equivalence: same variant and same payload, where atoms are
/// compared by the text they stand for.
pub open spec fn value_eqv(a: TokenValue, b: TokenValue) -> bool {
    match (a, b) {
        (TokenValue::Empty, TokenValue::Empty) => true,
        (TokenValue::Num(x), TokenValue::Num(y)) => x == y,
        (TokenValue::Word(x), TokenValue::Word(y)) => x == y,
        (TokenValue::Name(x), TokenValue::Name(y)) => atom_bytes(x) == atom_bytes(y),
        _ => false,
    }
}

/// Token equivalence: same kind and span, equivalent payload.
pub open spec fn token_eqv(a: Token, b: Token) -> bool {
    a.kind == b.kind && a.span == b.span && value_eqv(a.value, b.value)
}

impl Clone for TokenValue {
    fn clone(&self) -> (r: Self)
        ensures
            value_eqv(*self, r),
    {
        match self {
            TokenValue::Empty => TokenValue::Empty,
            TokenValue::Num(n) => TokenValue::Num(*n),
            TokenValue::Word(k) => TokenValue::Word(*k),
            TokenValue::Name(a) => TokenValue::Name(atom_clone(a)),
        }
    }
}

impl Clone for Token {
    fn clone(&self) -> (r: Self)
        ensures
            token_eqv(*self, r),
    {
        Token { kind: self.kind, value: self.value.clone(), span: self.span }
    }
}

/// A token's payload variant is consistent with its kind; a malformed
/// pairing would be a lexer bug, never a user-facing error.
pub open spec fn value_matches(t: Token) -> bool {
    match t.kind {
        Kind::Number => t.value is Num,
        Kind::Identifier => t.value is Name,
        Kind::Keyword => t.value is Word,
        _ => t.value is Empty,
    }
}

/// Well-formedness of a token against the source it was scanned from:
/// span in bounds, end-of-input exactly at the buffer's end, a non-empty
/// extent otherwise, a payload matching the kind, an identifier's interned
/// name equal to the spanned text, and a number's payload equal to the
/// eagerly read value of the spanned text.
pub open spec fn token_wf(t: Token, src: Seq<u8>) -> bool {
    &&& t.span.start <= t.span.end
    &&& t.span.end <= src.len()
    &&& (t.kind == Kind::Eof ==> t.span.start == src.len())
    &&& (t.kind != Kind::Eof ==> t.span.start < t.span.end)
    &&& value_matches(t)
    &&& (t.kind == Kind::Identifier ==> atom_bytes(t.value->Name_0) == src.subrange(
        t.span.start as int,
        t.span.end as int,
    ))
    &&& (t.kind == Kind::Number ==> is_digit(src[t.span.start as int]) && t.value->Num_0.mantissa
        == num_mantissa(src.subrange(t.span.start as int, t.span.end as int))
        && t.value->Num_0.scale == num_scale(
        src.subrange(t.span.start as int, t.span.end as int),
    ))
}

/// Insignificant whitespace.
pub open spec fn is_ws(b: u8) -> bool {
    b == 32 || b == 9 || b == 10 || b == 13
}

/// An ASCII decimal digit.
pub open spec fn is_digit(b: u8) -> bool {
    48 <= b && b <= 57
}

/// A byte that can start an identifier or keyword: a letter or underscore.
pub open spec fn is_ident_start(b: u8) -> bool {
    (65 <= b && b <= 90) || (97 <= b && b <= 122) || b == 95
}

/// A byte that can continue an identifier or keyword.
pub open spec fn is_ident_cont(b: u8) -> bool {
    is_ident_start(b) || is_digit(b)
}

/// A byte that continues a numeric literal's extent: a digit or a dot.
pub open spec fn is_num_cont(b: u8) -> bool {
    is_digit(b) || b == 46
}

/// A UTF-8 continuation byte: one that can only stand inside a multi-byte
/// character.
pub open spec fn is_utf8_cont(b: u8) -> bool {
    128 <= b && b <= 191
}

/// Which keyword, if any, a scanned word is.
pub open spec fn keyword_of(w: Seq<u8>) -> Option<Keyword> {
    if w.len() == 3 && w[0] == 118 && w[1] == 97 && w[2] == 114 {
        Some(Keyword::Var)
    } else if w.len() == 3 && w[0] == 108 && w[1] == 101 && w[2] == 116 {
        Some(Keyword::Let)
    } else if w.len() == 5 && w[0] == 99 && w[1] == 111 && w[2] == 110 && w[3] == 115 && w[4]
        == 116 {
        Some(Keyword::Const)
    } else if w.len() == 8 && w[0] == 102 && w[1] == 117 && w[2] == 110 && w[3] == 99 && w[4]
        == 116 && w[5] == 105 && w[6] == 111 && w[7] == 110 {
        Some(Keyword::Function)
    } else {
        None
    }
}

/// Whether a scanned word is the `null` literal.
pub open spec fn is_null_word(w: Seq<u8>) -> bool {
    w.len() == 4 && w[0] == 110 && w[1] == 117 && w[2] == 108 && w[3] == 108
}

/// How many dots a numeric extent holds.
pub open spec fn num_dots(s: Seq<u8>) -> nat
    decreases s.len(),
{
    if s.len() == 0 {
        0
    } else {
        num_dots(s.drop_last()) + (if s.last() == 46 {
            1nat
        } else {
            0nat
        })
    }
}

/// The value of a numeric extent's digits, ignoring the dot.
pub open spec fn num_mantissa(s: Seq<u8>) -> nat
    decreases s.len(),
{
    if s.len() == 0 {
        0
    } else if is_digit(s.last()) {
        num_mantissa(s.drop_last()) * 10 + (s.last() - 48) as nat
    } else {
        num_mantissa(s.drop_last())
    }
}

/// How many digits of a numeric extent stand after its dot; 0 without one.
pub open spec fn num_scale(s: Seq<u8>) -> nat
    decreases s.len(),
{
    if s.len() == 0 {
        0
    } else if !s.contains(46) {
        0
    } else if s.last() == 46 {
        0
    } else {
        num_scale(s.drop_last()) + 1
    }
}

} // verus!
