//! The pull-based lexer: produces one token on demand from the source
//! buffer, skipping insignificant whitespace, and is idempotent at
//! end-of-input. `scan_result` states exactly what one `next_token` call did.
//!
//! Only whitespace is insignificant between tokens: this front end defines
//! no comment syntax, so `scan_result` admits nothing but whitespace before
//! a token, and a `/` always begins the division operator.

use crate::interner::{atom_bytes, intern_ascii};
use crate::token::{
    is_digit, is_ident_cont, is_ident_start, is_null_word, is_num_cont, is_utf8_cont, is_ws,
    keyword_of, num_dots, num_mantissa, num_scale, token_wf, Keyword, Kind, NumberValue, Span,
    Token, TokenValue,
};
use vstd::prelude::*;
use vstd::slice::{slice_index_get, slice_subrange};
use vstd::string::StringSliceAdditionalSpecFns;

verus! {

/// What a correct scan of a punctuation or operator token looks like, given
/// that the byte at the token's start is none of whitespace, digit or
/// identifier start. An unrecognized ASCII byte becomes a one-byte
/// `Invalid` token; an unrecognized character's lead byte takes its UTF-8
/// continuation bytes with it into one `Invalid` token.
pub open spec fn punct_token_ok(src: Seq<u8>, t: Token) -> bool {
    let start = t.span.start as int;
    let end = t.span.end as int;
    let b = src[start];
    &&& t.value is Empty
    &&& if b == 44 {
        t.kind == Kind::Comma && end == start + 1
    } else if b == 61 {
        t.kind == Kind::Equals && end == start + 1
    } else if b == 40 {
        t.kind == Kind::OpenParen && end == start + 1
    } else if b == 41 {
        t.kind == Kind::CloseParen && end == start + 1
    } else if b == 91 {
        t.kind == Kind::OpenBracket && end == start + 1
    } else if b == 93 {
        t.kind == Kind::CloseBracket && end == start + 1
    } else if b == 123 {
        t.kind == Kind::OpenBrace && end == start + 1
    } else if b == 125 {
        t.kind == Kind::CloseBrace && end == start + 1
    } else if b == 43 {
        t.kind == Kind::Plus && end == start + 1
    } else if b == 45 {
        t.kind == Kind::Minus && end == start + 1
    } else if b == 47 {
        t.kind == Kind::Slash && end == start + 1
    } else if b == 42 {
        if start + 1 < src.len() && src[start + 1] == 42 {
            t.kind == Kind::StarStar && end == start + 2
        } else {
            t.kind == Kind::Star && end == start + 1
        }
    } else if b == 46 {
        t.kind == Kind::Dot && end == start + 1
    } else if b >= 128 {
        // an unrecognized character: the lead byte together with its
        // UTF-8 continuation bytes becomes one invalid token
        &&& t.kind == Kind::Invalid
        &&& forall|j: int| start < j < end ==> is_utf8_cont(#[trigger] src[j])
        &&& (end == src.len() || !is_utf8_cont(src[end]))
    } else {
        t.kind == Kind::Invalid && end == start + 1
    }
}

/// What a correct scan of an identifier-shaped word looks like: a maximal
/// run of identifier bytes, classified as a keyword, the `null` literal, or
/// an identifier whose interned name is exactly the spanned text.
pub open spec fn word_token_ok(src: Seq<u8>, t: Token) -> bool {
    let start = t.span.start as int;
    let end = t.span.end as int;
    let w = src.subrange(start, end);
    &&& forall|j: int| start <= j < end ==> is_ident_cont(#[trigger] src[j])
    &&& (end == src.len() || !is_ident_cont(src[end]))
    &&& match keyword_of(w) {
        Some(kw) => t.kind == Kind::Keyword && t.value is Word && t.value->Word_0 == kw,
        None => if is_null_word(w) {
            t.kind == Kind::Null && t.value is Empty
        } else {
            t.kind == Kind::Identifier && t.value is Name && atom_bytes(t.value->Name_0) == w
        },
    }
}

/// What a correct scan of a numeric literal looks like: a maximal run of
/// digits and dots. With at most one dot and a mantissa that fits in `u64`
/// the token is a `Number` with the exact eagerly-read payload; otherwise
/// the malformed text is an `Invalid` token.
pub open spec fn number_token_ok(src: Seq<u8>, t: Token) -> bool {
    let start = t.span.start as int;
    let end = t.span.end as int;
    let w = src.subrange(start, end);
    &&& forall|j: int| start <= j < end ==> is_num_cont(#[trigger] src[j])
    &&& (end == src.len() || !is_num_cont(src[end]))
    &&& if num_dots(w) <= 1 && num_mantissa(w) <= u64::MAX {
        &&& t.kind == Kind::Number
        &&& t.value is Num
        &&& t.value->Num_0.mantissa == num_mantissa(w)
        &&& t.value->Num_0.scale == num_scale(w)
    } else {
        t.kind == Kind::Invalid && t.value is Empty
    }
}

/// Dispatch on the token's first byte: its class decides how it is scanned.
pub open spec fn class_token_ok(src: Seq<u8>, t: Token) -> bool {
    let b = src[t.span.start as int];
    if is_digit(b) {
        number_token_ok(src, t)
    } else if is_ident_start(b) {
        word_token_ok(src, t)
    } else {
        punct_token_ok(src, t)
    }
}

/// What one `next_token` call did: starting from scan position `p0`, it
/// skipped only whitespace, produced token `t`, and left the position `p1`
/// at the token's end. At end of input the token is `Eof` with the empty
/// span `[len, len)`.
pub open spec fn scan_result(src: Seq<u8>, p0: int, t: Token, p1: int) -> bool {
    let start = t.span.start as int;
    let end = t.span.end as int;
    &&& p0 <= start
    &&& start <= end
    &&& end <= src.len()
    &&& p1 == end
    &&& forall|j: int| p0 <= j < start ==> is_ws(#[trigger] src[j])
    &&& (start < src.len() ==> !is_ws(src[start]))
    &&& (t.kind == Kind::Eof <==> start == src.len())
    &&& (t.kind == Kind::Eof ==> end == src.len() && t.value is Empty)
    &&& (t.kind != Kind::Eof ==> start < end && class_token_ok(src, t))
}

/// The lexer is deterministic: two tokens scanned at the same position of
/// the same source agree in kind, span, payload content, and the position
/// they leave behind. Together with the parser's contracts this makes the
/// parse a function of the source text alone, up to atom handle identity.
pub proof fn lemma_scan_deterministic(
    src: Seq<u8>,
    p: int,
    t1: Token,
    p1: int,
    t2: Token,
    p2: int,
)
    requires
        scan_result(src, p, t1, p1),
        scan_result(src, p, t2, p2),
    ensures
        t1.kind == t2.kind,
        t1.span == t2.span,
        crate::token::value_eqv(t1.value, t2.value),
        p1 == p2,
{
    let s1 = t1.span.start as int;
    let s2 = t2.span.start as int;
    assert(s1 == s2) by {
        if s1 < s2 {
            assert(is_ws(src[s1]));
            assert(false);
        }
        if s2 < s1 {
            assert(is_ws(src[s2]));
            assert(false);
        }
    }
    if s1 == src.len() {
        assert(t1.kind == Kind::Eof && t2.kind == Kind::Eof);
    } else {
        let e1 = t1.span.end as int;
        let e2 = t2.span.end as int;
        let b = src[s1];
        if is_digit(b) {
            assert(e1 == e2) by {
                if e1 < e2 {
                    assert(is_num_cont(src[e1]));
                    assert(false);
                }
                if e2 < e1 {
                    assert(is_num_cont(src[e2]));
                    assert(false);
                }
            }
        } else if is_ident_start(b) {
            assert(e1 == e2) by {
                if e1 < e2 {
                    assert(is_ident_cont(src[e1]));
                    assert(false);
                }
                if e2 < e1 {
                    assert(is_ident_cont(src[e2]));
                    assert(false);
                }
            }
        } else if b >= 128 {
            assert(e1 == e2) by {
                if e1 < e2 {
                    assert(is_utf8_cont(src[e1]));
                    assert(false);
                }
                if e2 < e1 {
                    assert(is_utf8_cont(src[e2]));
                    assert(false);
                }
            }
        } else {
            assert(e1 == e2);
        }
    }
}

fn byte_at(s: &[u8], i: usize) -> (b: u8)
    requires
        i < s@.len(),
    ensures
        b == s@[i as int],
{
    *slice_index_get(s, i)
}

fn ws_b(b: u8) -> (r: bool)
    ensures
        r == is_ws(b),
{
    b == 32 || b == 9 || b == 10 || b == 13
}

fn digit_b(b: u8) -> (r: bool)
    ensures
        r == is_digit(b),
{
    48 <= b && b <= 57
}

fn ident_start_b(b: u8) -> (r: bool)
    ensures
        r == is_ident_start(b),
{
    (65 <= b && b <= 90) || (97 <= b && b <= 122) || b == 95
}

fn ident_cont_b(b: u8) -> (r: bool)
    ensures
        r == is_ident_cont(b),
{
    ident_start_b(b) || digit_b(b)
}

fn num_cont_b(b: u8) -> (r: bool)
    ensures
        r == is_num_cont(b),
{
    digit_b(b) || b == 46
}

/// Growing a numeric extent to the right never shrinks its mantissa: the
/// mantissa of a prefix bounds the mantissa of the whole extent from below.
proof fn lemma_mantissa_prefix(s: Seq<u8>, k: int)
    requires
        0 <= k <= s.len(),
    ensures
        num_mantissa(s.subrange(0, k)) <= num_mantissa(s),
    decreases s.len() - k,
{
    if k == s.len() {
        assert(s.subrange(0, k) =~= s);
    } else {
        assert(s.subrange(0, k + 1).drop_last() =~= s.subrange(0, k));
        assert(num_mantissa(s.subrange(0, k)) <= num_mantissa(s.subrange(0, k + 1)));
        lemma_mantissa_prefix(s, k + 1);
    }
}

/// In an extent whose only dot stands at index `di`, the scale is the count
/// of bytes after that dot.
proof fn lemma_scale_at(s: Seq<u8>, di: int)
    requires
        0 <= di < s.len(),
        s[di] == 46,
        forall|k: int| 0 <= k < s.len() && k != di ==> s[k] != 46,
    ensures
        num_scale(s) == s.len() - 1 - di,
    decreases s.len(),
{
    assert(s.contains(46u8)) by {
        assert(s[di] == 46u8);
    }
    if di == s.len() - 1 {
        assert(s.last() == 46);
    } else {
        assert(s.last() != 46);
        let s2 = s.drop_last();
        assert(s2 =~= s.subrange(0, s.len() - 1));
        lemma_scale_at(s2, di);
    }
}

/// An extent without a dot has scale 0.
proof fn lemma_scale_none(s: Seq<u8>)
    requires
        forall|k: int| 0 <= k < s.len() ==> s[k] != 46,
    ensures
        num_scale(s) == 0,
{
    if s.len() > 0 {
        assert(!s.contains(46u8));
    }
}

/// The scanner over an immutable source buffer; `pos` is the only state.
pub struct Lexer<'a> {
    src: &'a [u8],
    pos: usize,
}

impl<'a> Lexer<'a> {
    /// The source bytes being scanned.
    pub closed spec fn src(&self) -> Seq<u8> {
        self.src@
    }

    /// The current scan position.
    pub closed spec fn pos(&self) -> int {
        self.pos as int
    }

    /// The scan position never leaves the buffer.
    pub open spec fn inv(&self) -> bool {
        0 <= self.pos() <= self.src().len()
    }

    pub fn new(source: &'a str) -> (l: Lexer<'a>)
        ensures
            l.inv(),
            l.src() == source.spec_bytes(),
            l.pos() == 0,
    {
        Lexer { src: source.as_bytes(), pos: 0 }
    }

    pub fn src_len(&self) -> (n: usize)
        ensures
            n == self.src().len(),
    {
        self.src.len()
    }

    /// Scan past the previously returned token and return the next token.
    /// At end of input it keeps returning an `Eof` token without advancing.
    pub fn next_token(&mut self) -> (t: Token)
        requires
            old(self).inv(),
        ensures
            final(self).inv(),
            final(self).src() == old(self).src(),
            scan_result(final(self).src(), old(self).pos(), t, final(self).pos()),
            token_wf(t, final(self).src()),
            old(self).pos() == old(self).src().len() ==> t.kind == Kind::Eof && final(self).pos()
                == old(self).pos(),
    {
        let len = self.src.len();
        loop
            invariant
                self.pos <= len,
                len == self.src@.len(),
                self.src@ == old(self).src@,
                old(self).pos() <= self.pos(),
                forall|j: int| old(self).pos() <= j < self.pos() ==> is_ws(#[trigger] self.src@[j]),
            ensures
                self.pos == len || !is_ws(self.src@[self.pos as int]),
            decreases len - self.pos,
        {
            if self.pos >= len {
                break ;
            }
            if !ws_b(byte_at(self.src, self.pos)) {
                break ;
            }
            self.pos = self.pos + 1;
        }
        if self.pos == len {
            return Token {
                kind: Kind::Eof,
                value: TokenValue::Empty,
                span: Span { start: len, end: len },
            };
        }
        let start = self.pos;
        let b = byte_at(self.src, start);
        if digit_b(b) {
            self.lex_number()
        } else if ident_start_b(b) {
            self.lex_word()
        } else {
            let (kind, width): (Kind, usize) = if b == 44 {
                (Kind::Comma, 1)
            } else if b == 61 {
                (Kind::Equals, 1)
            } else if b == 40 {
                (Kind::OpenParen, 1)
            } else if b == 41 {
                (Kind::CloseParen, 1)
            } else if b == 91 {
                (Kind::OpenBracket, 1)
            } else if b == 93 {
                (Kind::CloseBracket, 1)
            } else if b == 123 {
                (Kind::OpenBrace, 1)
            } else if b == 125 {
                (Kind::CloseBrace, 1)
            } else if b == 43 {
                (Kind::Plus, 1)
            } else if b == 45 {
                (Kind::Minus, 1)
            } else if b == 47 {
                (Kind::Slash, 1)
            } else if b == 42 {
                if start + 1 < len && byte_at(self.src, start + 1) == 42 {
                    (Kind::StarStar, 2)
                } else {
                    (Kind::Star, 1)
                }
            } else if b == 46 {
                (Kind::Dot, 1)
            } else if b >= 128 {
                let mut i = start + 1;
                loop
                    invariant
                        start < i <= len,
                        len == self.src@.len(),
                        forall|j: int| start < j < i ==> is_utf8_cont(#[trigger] self.src@[j]),
                    ensures
                        start < i <= len,
                        forall|j: int| start < j < i ==> is_utf8_cont(#[trigger] self.src@[j]),
                        i == len || !is_utf8_cont(self.src@[i as int]),
                    decreases len - i,
                {
                    if i >= len {
                        break ;
                    }
                    let c = byte_at(self.src, i);
                    if !(128 <= c && c <= 191) {
                        break ;
                    }
                    i = i + 1;
                }
                (Kind::Invalid, i - start)
            } else {
                (Kind::Invalid, 1)
            };
            self.pos = start + width;
            Token { kind, value: TokenValue::Empty, span: Span { start, end: self.pos } }
        }
    }

    /// Scan a maximal identifier-shaped word and classify it.
    fn lex_word(&mut self) -> (t: Token)
        requires
            old(self).inv(),
            old(self).pos() < old(self).src().len(),
            is_ident_start(old(self).src()[old(self).pos()]),
            !is_ws(old(self).src()[old(self).pos()]),
        ensures
            final(self).inv(),
            final(self).src() == old(self).src(),
            t.span.start == old(self).pos(),
            t.span.end == final(self).pos(),
            t.span.start < t.span.end,
            t.kind != Kind::Eof,
            word_token_ok(final(self).src(), t),
            token_wf(t, final(self).src()),
    {
        let s: &[u8] = self.src;
        let len = s.len();
        let start = self.pos;
        let mut i = start + 1;
        loop
            invariant
                start < i <= len,
                len == s@.len(),
                forall|j: int| start <= j < i ==> is_ident_cont(#[trigger] s@[j]),
            ensures
                start < i <= len,
                forall|j: int| start <= j < i ==> is_ident_cont(#[trigger] s@[j]),
                i == len || !is_ident_cont(s@[i as int]),
            decreases len - i,
        {
            if i >= len {
                break ;
            }
            if !ident_cont_b(byte_at(s, i)) {
                break ;
            }
            i = i + 1;
        }
        self.pos = i;
        let n = i - start;
        let (kind, value): (Kind, TokenValue) = if n == 3 && byte_at(s, start) == 118 && byte_at(
            s,
            start + 1,
        ) == 97 && byte_at(s, start + 2) == 114 {
            (Kind::Keyword, TokenValue::Word(Keyword::Var))
        } else if n == 3 && byte_at(s, start) == 108 && byte_at(s, start + 1) == 101 && byte_at(
            s,
            start + 2,
        ) == 116 {
            (Kind::Keyword, TokenValue::Word(Keyword::Let))
        } else if n == 5 && byte_at(s, start) == 99 && byte_at(s, start + 1) == 111 && byte_at(
            s,
            start + 2,
        ) == 110 && byte_at(s, start + 3) == 115 && byte_at(s, start + 4) == 116 {
            (Kind::Keyword, TokenValue::Word(Keyword::Const))
        } else if n == 8 && byte_at(s, start) == 102 && byte_at(s, start + 1) == 117 && byte_at(
            s,
            start + 2,
        ) == 110 && byte_at(s, start + 3) == 99 && byte_at(s, start + 4) == 116 && byte_at(
            s,
            start + 5,
        ) == 105 && byte_at(s, start + 6) == 111 && byte_at(s, start + 7) == 110 {
            (Kind::Keyword, TokenValue::Word(Keyword::Function))
        } else if n == 4 && byte_at(s, start) == 110 && byte_at(s, start + 1) == 117 && byte_at(
            s,
            start + 2,
        ) == 108 && byte_at(s, start + 3) == 108 {
            (Kind::Null, TokenValue::Empty)
        } else {
            let name_bytes = slice_subrange(s, start, i);
            assert(forall|k: int|
                0 <= k < name_bytes@.len() ==> #[trigger] name_bytes@[k] < 128) by {
                assert(forall|k: int|
                    0 <= k < name_bytes@.len() ==> is_ident_cont(#[trigger] name_bytes@[k]));
            }
            (Kind::Identifier, TokenValue::Name(intern_ascii(name_bytes)))
        };
        Token { kind, value, span: Span { start, end: i } }
    }

    /// Scan a maximal run of digits and dots and read its payload eagerly.
    fn lex_number(&mut self) -> (t: Token)
        requires
            old(self).inv(),
            old(self).pos() < old(self).src().len(),
            is_digit(old(self).src()[old(self).pos()]),
            !is_ws(old(self).src()[old(self).pos()]),
        ensures
            final(self).inv(),
            final(self).src() == old(self).src(),
            t.span.start == old(self).pos(),
            t.span.end == final(self).pos(),
            t.span.start < t.span.end,
            t.kind != Kind::Eof,
            number_token_ok(final(self).src(), t),
            token_wf(t, final(self).src()),
    {
        let s: &[u8] = self.src;
        let len = s.len();
        let start = self.pos;
        let mut i = start;
        let mut dots: usize = 0;
        let mut dot_idx: usize = 0;
        loop
            invariant
                start <= i <= len,
                start < len,
                len == s@.len(),
                is_digit(s@[start as int]),
                forall|j: int| start <= j < i ==> is_num_cont(#[trigger] s@[j]),
                dots == num_dots(s@.subrange(start as int, i as int)),
                dots <= i - start,
                dots == 0 ==> forall|j: int| start <= j < i ==> #[trigger] s@[j] != 46,
                dots >= 1 ==> start <= dot_idx < i && s@[dot_idx as int] == 46,
                dots == 1 ==> forall|j: int|
                    start <= j < i && j != dot_idx ==> #[trigger] s@[j] != 46,
            ensures
                start <= i <= len,
                start < i,
                forall|j: int| start <= j < i ==> is_num_cont(#[trigger] s@[j]),
                i == len || !is_num_cont(s@[i as int]),
                dots == num_dots(s@.subrange(start as int, i as int)),
                dots == 0 ==> forall|j: int| start <= j < i ==> #[trigger] s@[j] != 46,
                dots >= 1 ==> start <= dot_idx < i && s@[dot_idx as int] == 46,
                dots == 1 ==> forall|j: int|
                    start <= j < i && j != dot_idx ==> #[trigger] s@[j] != 46,
            decreases len - i,
        {
            if i >= len {
                break ;
            }
            let c = byte_at(s, i);
            if !num_cont_b(c) {
                break ;
            }
            proof {
                assert(s@.subrange(start as int, i + 1 as int).drop_last() =~= s@.subrange(
                    start as int,
                    i as int,
                ));
            }
            if c == 46 {
                if dots == 0 {
                    dot_idx = i;
                }
                dots = dots + 1;
            }
            i = i + 1;
        }
        self.pos = i;
        let ghost w = s@.subrange(start as int, i as int);
        if dots > 1 {
            return Token {
                kind: Kind::Invalid,
                value: TokenValue::Empty,
                span: Span { start, end: i },
            };
        }
        let mut m: u64 = 0;
        let mut j = start;
        loop
            invariant
                start <= j <= i <= len,
                start < i,
                len == s@.len(),
                s@ == old(self).src@,
                self.src@ == s@,
                self.pos == i,
                start == old(self).pos(),
                w == s@.subrange(start as int, i as int),
                i == len || !is_num_cont(s@[i as int]),
                forall|jj: int| start <= jj < i ==> is_num_cont(#[trigger] s@[jj]),
                m == num_mantissa(s@.subrange(start as int, j as int)),
            ensures
                j == i,
                m == num_mantissa(s@.subrange(start as int, j as int)),
            decreases i - j,
        {
            if j >= i {
                break ;
            }
            let c = byte_at(s, j);
            proof {
                assert(s@.subrange(start as int, j + 1 as int).drop_last() =~= s@.subrange(
                    start as int,
                    j as int,
                ));
            }
            if c != 46 {
                let d = c - 48;
                if m > 1844674407370955161u64 {
                    proof {
                        assert(num_mantissa(s@.subrange(start as int, j + 1 as int)) > u64::MAX);
                        assert(w.subrange(0, j + 1 - start) =~= s@.subrange(
                            start as int,
                            j + 1 as int,
                        ));
                        lemma_mantissa_prefix(w, j + 1 - start);
                    }
                    return Token {
                        kind: Kind::Invalid,
                        value: TokenValue::Empty,
                        span: Span { start, end: i },
                    };
                }
                let m10 = m * 10;
                let du = d as u64;
                if m10 > u64::MAX - du {
                    proof {
                        assert(num_mantissa(s@.subrange(start as int, j + 1 as int)) > u64::MAX);
                        assert(w.subrange(0, j + 1 - start) =~= s@.subrange(
                            start as int,
                            j + 1 as int,
                        ));
                        lemma_mantissa_prefix(w, j + 1 - start);
                    }
                    return Token {
                        kind: Kind::Invalid,
                        value: TokenValue::Empty,
                        span: Span { start, end: i },
                    };
                }
                m = m10 + du;
            }
            j = j + 1;
        }
        let scale: usize = if dots == 1 {
            i - dot_idx - 1
        } else {
            0
        };
        proof {
            if dots == 1 {
                assert(w[dot_idx - start] == 46);
                assert(forall|k: int| 0 <= k < w.len() && k != dot_idx - start ==> #[trigger] w[k]
                    != 46);
                lemma_scale_at(w, dot_idx - start);
            } else {
                assert(forall|k: int| 0 <= k < w.len() ==> #[trigger] w[k] != 46);
                lemma_scale_none(w);
            }
        }
        Token {
            kind: Kind::Number,
            value: TokenValue::Num(NumberValue { mantissa: m, scale }),
            span: Span { start, end: i },
        }
    }
}

} // verus!
