//! The recursive-descent parser: drives the lexer with exactly one token of
//! lookahead, dispatches statements on the current token, parses variable
//! declarations, and parses expressions by precedence climbing. On success
//! `parse` returns a `Program` that is well-formed against the source (see
//! `crate::ast::program_wf`); on failure it returns the offending token.

use crate::ast::{
    declaration_wf, declarators_ordered, expr_span, expr_wf, program_wf, stmt_span, stmt_wf,
    stmts_ordered, ArithmeticOperator, BinaryExpression, CallExpression, Expression, Identifier,
    Literal, MemberExpression, NumberLiteral, Program, Statement, UnaryExpression, UnaryOperator,
    VariableDeclaration, VariableDeclarator, VariableKind,
};
use crate::interner::atom_clone;
use crate::lexer::{lemma_scan_deterministic, scan_result, Lexer};
use crate::token::{token_eqv, token_wf, Keyword, Kind, Span, Token};
use vstd::prelude::*;
use vstd::string::StringSliceAdditionalSpecFns;

verus! {

/// A structured parse failure carrying the offending token; `Unsupported`
/// marks a grammar position the node set intentionally has no constructor
/// for yet.
#[derive(Debug, PartialEq)]
pub enum ParserError {
    InvalidToken(Token),
    Unsupported(Token),
}

/// Parser state: the single token of lookahead and the end offset of the
/// previously consumed token.
pub struct Parser<'a> {
    lexer: Lexer<'a>,
    current_token: Token,
    prev_token_end: usize,
}

/// What a successful `parse` returns: the root spans the whole buffer, has
/// no shebang, and is well-formed against the source.
pub open spec fn parse_ok_post(p: Program, src: Seq<u8>) -> bool {
    &&& p.span.start == 0
    &&& p.span.end == src.len()
    &&& p.shebang is None
    &&& program_wf(p, src)
    &&& stmts_ordered(p)
}

/// What a successfully parsed statement satisfies: well-formed, starting at
/// the token that introduced it and ending no later than `prev1`.
pub open spec fn stmt_post(s: Statement, src: Seq<u8>, start0: int, prev1: int) -> bool {
    &&& stmt_wf(s, src)
    &&& stmt_span(s).start == start0
    &&& stmt_span(s).end <= prev1
}

/// What a successfully parsed variable declaration satisfies: well-formed,
/// spanning from the keyword's start to the end of the last consumed token,
/// with the kind the keyword maps to.
pub open spec fn decl_post(
    vd: VariableDeclaration,
    src: Seq<u8>,
    kw: Keyword,
    start0: int,
    prev1: int,
) -> bool {
    &&& declaration_wf(vd, src)
    &&& declarators_ordered(vd)
    &&& vd.span.start == start0
    &&& vd.span.end == prev1
    &&& (kw == Keyword::Var ==> vd.kind == VariableKind::Var)
    &&& (kw == Keyword::Let ==> vd.kind == VariableKind::Let)
    &&& (kw == Keyword::Const ==> vd.kind == VariableKind::Const)
}

/// What a successfully parsed expression satisfies: well-formed, starting
/// no earlier than the token it began at and ending no later than `prev1`.
pub open spec fn expr_post(e: Expression, src: Seq<u8>, start0: int, prev1: int) -> bool {
    &&& expr_wf(e, src)
    &&& start0 <= expr_span(e).start
    &&& expr_span(e).end <= prev1
}

/// Every parse failure carries a token that is well-formed against the
/// source, so a collaborator can render its exact location.
pub open spec fn err_wf(e: ParserError, src: Seq<u8>) -> bool {
    match e {
        ParserError::InvalidToken(t) => token_wf(t, src),
        ParserError::Unsupported(t) => token_wf(t, src),
    }
}

/// A failed parse stops at the point of detection: the error carries,
/// content for content, the lookahead token the parser stopped on, and is
/// propagated unchanged through every frame.
pub open spec fn err_at(e: ParserError, stopped_on: Token) -> bool {
    match e {
        ParserError::InvalidToken(t) => token_eqv(t, stopped_on),
        ParserError::Unsupported(t) => token_eqv(t, stopped_on),
    }
}

/// The token the lexer yields at scan position `p` of `src`.
pub open spec fn token_from(src: Seq<u8>, p: int, t: Token) -> bool {
    scan_result(src, p, t, t.span.end as int)
}

/// The initializer tail of one declarator step, with its two witness
/// tokens named: after the `=` token `t2` stands a number token `n_t`
/// whose eagerly read payload becomes the initializer, and after it `t3`,
/// a comma exactly when the list goes on.
pub open spec fn init_step_with(
    src: Seq<u8>,
    d: VariableDeclarator,
    q: int,
    more: bool,
    id_t: Token,
    t2: Token,
    n_t: Token,
    t3: Token,
) -> bool {
    &&& token_from(src, t2.span.end as int, n_t)
    &&& n_t.kind == Kind::Number
    &&& (d.init matches Some(e) && e matches Expression::Literal(l) && (*l) matches Literal::Number(
        n,
    ) && n.span == n_t.span && n.value == n_t.value->Num_0)
    &&& d.span == (Span { start: id_t.span.start, end: n_t.span.end })
    &&& token_from(src, n_t.span.end as int, t3)
    &&& if t3.kind == Kind::Comma {
        q == t3.span.end && more
    } else {
        q == n_t.span.end && !more
    }
}

/// One step of the declarator loop at scan position `p`, with its witness
/// tokens named: an identifier token `id_t`, then `t2` — either a comma (a
/// declarator without initializer spanning to the comma's end; `more` says
/// the list goes on), or an `=` followed by the initializer tail, or any
/// other token (a bare declarator ending the list). `q` is the scan
/// position after the declarator's last consumed token.
pub open spec fn declarator_step_with(
    src: Seq<u8>,
    p: int,
    d: VariableDeclarator,
    q: int,
    more: bool,
    id_t: Token,
    t2: Token,
) -> bool {
    &&& token_from(src, p, id_t)
    &&& id_t.kind == Kind::Identifier
    &&& d.id.span == id_t.span
    &&& token_from(src, id_t.span.end as int, t2)
    &&& if t2.kind == Kind::Comma {
        &&& d.init is None
        &&& d.span == (Span { start: id_t.span.start, end: t2.span.end })
        &&& q == t2.span.end
        &&& more
    } else if t2.kind == Kind::Equals {
        exists|n_t: Token, t3: Token|
            #![auto]
            init_step_with(src, d, q, more, id_t, t2, n_t, t3)
    } else {
        &&& d.init is None
        &&& d.span == id_t.span
        &&& q == id_t.span.end
        &&& !more
    }
}

/// One step of the declarator loop at scan position `p`, per spec §4.2.
pub open spec fn declarator_step(
    src: Seq<u8>,
    p: int,
    d: VariableDeclarator,
    q: int,
    more: bool,
) -> bool {
    exists|id_t: Token, t2: Token|
        #![auto]
        declarator_step_with(src, p, d, q, more, id_t, t2)
}

/// The declarator list `ds` as parsed from scan position `p` to `q`:
/// each declarator is one `declarator_step`, chained left to right. `more`
/// says whether the last step consumed a trailing comma, so that another
/// declarator is expected at `q`.
pub open spec fn declarators_from(
    src: Seq<u8>,
    p: int,
    ds: Seq<VariableDeclarator>,
    q: int,
    more: bool,
) -> bool
    decreases ds.len(),
{
    if ds.len() == 0 {
        q == p && more
    } else {
        exists|q1: int, m1: bool|
            {
                &&& #[trigger] declarator_step(src, p, ds[0], q1, m1)
                &&& if ds.len() == 1 {
                    q1 == q && m1 == more
                } else {
                    m1 && declarators_from(src, q1, ds.drop_first(), q, more)
                }
            }
    }
}

/// A complete declarator chain (one ending without a trailing comma)
/// begins at scan position `p`: exactly the sources on which spec's
/// declarator loop is owed success.
pub open spec fn chain_at(src: Seq<u8>, p: int) -> bool {
    exists|ds: Seq<VariableDeclarator>, q: int|
        #![auto]
        declarators_from(src, p, ds, q, false)
}

/// Destruct a chain's head: it is non-empty, its first declarator is one
/// step with witness tokens `(w.2, w.3)` ending at `w.0`, and either the
/// step consumed a trailing comma (`w.1`) and the rest of the chain goes
/// on from `w.0`, or it is the last declarator and the chain ends there.
proof fn lemma_chain_head(src: Seq<u8>, p: int, ds: Seq<VariableDeclarator>, q: int) -> (w: (
    int,
    bool,
    Token,
    Token,
))
    requires
        declarators_from(src, p, ds, q, false),
    ensures
        ds.len() > 0,
        declarator_step_with(src, p, ds[0], w.0, w.1, w.2, w.3),
        w.1 ==> declarators_from(src, w.0, ds.drop_first(), q, false),
        !w.1 ==> ds.len() == 1 && w.0 == q,
{
    let (q1, m1): (int, bool) = choose|q1: int, m1: bool|
        #![auto]
        declarator_step(src, p, ds[0], q1, m1) && (if ds.len() == 1 {
            q1 == q && m1 == false
        } else {
            m1 && declarators_from(src, q1, ds.drop_first(), q, false)
        });
    let (id_t, t2): (Token, Token) = choose|id_t: Token, t2: Token|
        #![auto]
        declarator_step_with(src, p, ds[0], q1, m1, id_t, t2);
    if m1 && ds.len() == 1 {
        assert(false);
    }
    if m1 {
        assert(declarators_from(src, q1, ds.drop_first(), q, false));
    }
    (q1, m1, id_t, t2)
}

/// Destruct the initializer tail of a step whose second token is `=`.
proof fn lemma_init_tail(
    src: Seq<u8>,
    p: int,
    d: VariableDeclarator,
    q: int,
    more: bool,
    id_t: Token,
    t2: Token,
) -> (w: (Token, Token))
    requires
        declarator_step_with(src, p, d, q, more, id_t, t2),
        t2.kind == Kind::Equals,
    ensures
        init_step_with(src, d, q, more, id_t, t2, w.0, w.1),
{
    let (n_t, t3): (Token, Token) = choose|n_t: Token, t3: Token|
        #![auto]
        init_step_with(src, d, q, more, id_t, t2, n_t, t3);
    (n_t, t3)
}

/// The token stream fixes where a complete declarator chain stops: two
/// chains from one position end at one position.
proof fn lemma_chain_end_unique(
    src: Seq<u8>,
    p: int,
    ds1: Seq<VariableDeclarator>,
    q1: int,
    ds2: Seq<VariableDeclarator>,
    q2: int,
)
    requires
        declarators_from(src, p, ds1, q1, false),
        declarators_from(src, p, ds2, q2, false),
    ensures
        q1 == q2,
    decreases ds1.len(),
{
    let w1 = lemma_chain_head(src, p, ds1, q1);
    let w2 = lemma_chain_head(src, p, ds2, q2);
    lemma_scan_deterministic(
        src,
        p,
        w1.2,
        w1.2.span.end as int,
        w2.2,
        w2.2.span.end as int,
    );
    lemma_scan_deterministic(
        src,
        w1.2.span.end as int,
        w1.3,
        w1.3.span.end as int,
        w2.3,
        w2.3.span.end as int,
    );
    if w1.3.kind == Kind::Equals {
        let v1 = lemma_init_tail(src, p, ds1[0], w1.0, w1.1, w1.2, w1.3);
        let v2 = lemma_init_tail(src, p, ds2[0], w2.0, w2.1, w2.2, w2.3);
        lemma_scan_deterministic(
            src,
            w1.3.span.end as int,
            v1.0,
            v1.0.span.end as int,
            v2.0,
            v2.0.span.end as int,
        );
        lemma_scan_deterministic(
            src,
            v1.0.span.end as int,
            v1.1,
            v1.1.span.end as int,
            v2.1,
            v2.1.span.end as int,
        );
    }
    assert(w1.1 == w2.1 && w1.0 == w2.0);
    if w1.1 {
        lemma_chain_end_unique(src, w1.0, ds1.drop_first(), q1, ds2.drop_first(), q2);
    }
}

/// The source holds exactly one variable declaration after the keyword
/// ending at `kw_end`: a complete declarator chain follows it, and then
/// end of input.
pub open spec fn single_declaration_after(src: Seq<u8>, kw_end: int) -> bool {
    exists|ds: Seq<VariableDeclarator>, q: int, t_e: Token|
        #![auto]
        declarators_from(src, kw_end, ds, q, false) && token_from(src, q, t_e) && t_e.kind
            == Kind::Eof
}

/// Appending one more step to a declarator list that expects another
/// declarator yields the longer list's relation.
proof fn lemma_declarators_push(
    src: Seq<u8>,
    p: int,
    ds: Seq<VariableDeclarator>,
    q1: int,
    d: VariableDeclarator,
    q2: int,
    m2: bool,
)
    requires
        declarators_from(src, p, ds, q1, true),
        declarator_step(src, q1, d, q2, m2),
    ensures
        declarators_from(src, p, ds.push(d), q2, m2),
    decreases ds.len(),
{
    if ds.len() == 0 {
        assert(q1 == p);
        assert(ds.push(d)[0] == d);
        assert(ds.push(d).len() == 1);
        assert(declarators_from(src, p, ds.push(d), q2, m2));
    } else {
        let (qh, mh): (int, bool) = choose|qh: int, mh: bool|
            #[trigger] declarator_step(src, p, ds[0], qh, mh) && (if ds.len() == 1 {
                qh == q1 && mh == true
            } else {
                mh && declarators_from(src, qh, ds.drop_first(), q1, true)
            });
        if ds.len() == 1 {
            assert(ds.drop_first().len() == 0);
            assert(declarators_from(src, qh, ds.drop_first(), q1, true));
        }
        lemma_declarators_push(src, qh, ds.drop_first(), q1, d, q2, m2);
        assert(ds.push(d).drop_first() =~= ds.drop_first().push(d));
        assert(ds.push(d)[0] == ds[0]);
        assert(declarators_from(src, p, ds.push(d), q2, m2));
    }
}

/// What a statement parsed from a `var`/`let`/`const` keyword token is: a
/// variable declaration spanning from the keyword whose declarators are
/// exactly the chain of declarator steps that follows the keyword.
pub open spec fn stmt_from_keyword(s: Statement, src: Seq<u8>, kw_tok: Token) -> bool {
    s matches Statement::VariableDeclaration(vd) && decl_post(
        *vd,
        src,
        kw_tok.value->Word_0,
        kw_tok.span.start as int,
        vd.span.end as int,
    ) && declarators_from(src, kw_tok.span.end as int, vd.declarations@, vd.span.end as int, false)
}

impl<'a> Parser<'a> {
    /// The source bytes being parsed.
    pub closed spec fn src(&self) -> Seq<u8> {
        self.lexer.src()
    }

    /// The single token of lookahead.
    pub closed spec fn current(&self) -> Token {
        self.current_token
    }

    /// The end offset of the previously consumed token.
    pub closed spec fn prev_end(&self) -> int {
        self.prev_token_end as int
    }

    /// The parser's invariant: the lookahead token is well-formed against
    /// the source, the lexer stands right behind it, the previous token
    /// ended before it starts, and the lookahead is exactly the token the
    /// lexer yields at the previous token's end.
    pub closed spec fn inv(&self) -> bool {
        &&& self.lexer.inv()
        &&& token_wf(self.current_token, self.src())
        &&& self.current_token.span.end == self.lexer.pos()
        &&& self.prev_end() <= self.current_token.span.start
        &&& scan_result(
            self.src(),
            self.prev_end(),
            self.current_token,
            self.current_token.span.end as int,
        )
    }

    /// The invariant guarantees the lookahead token is well-formed against
    /// the source; stated as a lemma so that clients of the closed invariant
    /// can use it.
    pub proof fn lemma_inv_token_wf(&self)
        requires
            self.inv(),
        ensures
            token_wf(self.current(), self.src()),
    {
    }

    /// Create a parser over `source` and prime the lookahead token, which
    /// is exactly the first token the lexer yields at position 0.
    pub fn new(source: &'a str) -> (p: Parser<'a>)
        ensures
            p.inv(),
            p.src() == source.spec_bytes(),
            p.prev_end() == 0,
            token_wf(p.current(), p.src()),
            scan_result(p.src(), 0, p.current(), p.current().span.end as int),
    {
        let mut lexer = Lexer::new(source);
        let first = lexer.next_token();
        Parser { lexer, current_token: first, prev_token_end: 0 }
    }

    /// Record the lookahead token's end and pull exactly one token: the new
    /// lookahead is what the lexer yields at the old lookahead's end. Once
    /// the lookahead is `Eof` it stays `Eof` with the same span, however
    /// often `advance` is called.
    pub fn advance(&mut self)
        requires
            old(self).inv(),
        ensures
            final(self).inv(),
            final(self).src() == old(self).src(),
            final(self).prev_end() == old(self).current().span.end,
            old(self).prev_end() <= final(self).prev_end(),
            old(self).current().kind != Kind::Eof ==> final(self).prev_end() > old(
                self,
            ).prev_end(),
            token_wf(final(self).current(), final(self).src()),
            scan_result(
                final(self).src(),
                old(self).current().span.end as int,
                final(self).current(),
                final(self).current().span.end as int,
            ),
            old(self).current().kind == Kind::Eof ==> (final(self).current().kind == Kind::Eof
                && final(self).current().span == old(self).current().span),
    {
        self.prev_token_end = self.current_token.span.end;
        let t = self.lexer.next_token();
        self.current_token = t;
    }

    /// Check that the lookahead token has the given kind; hand back the
    /// caller's error otherwise.
    pub fn expect_token_kind(&self, kind: Kind, error: ParserError) -> (r: Result<
        (),
        ParserError,
    >)
        ensures
            r is Ok <==> self.current().kind == kind,
            r matches Err(e) ==> e == error,
    {
        if self.current_token.kind != kind {
            Err(error)
        } else {
            Ok(())
        }
    }

    /// Parse the whole buffer into one `Program`, or fail on the first
    /// structural error. An empty source yields an empty program spanning
    /// `[0, 0)`.
    pub fn parse(&mut self) -> (r: Result<Program, ParserError>)
        requires
            old(self).inv(),
        ensures
            final(self).inv(),
            final(self).src() == old(self).src(),
            r matches Ok(p) ==> parse_ok_post(p, old(self).src()),
            old(self).src().len() == 0 ==> (r matches Ok(p) && p.body@.len() == 0),
            old(self).current().kind != Kind::Eof ==> (r matches Ok(p) ==> (p.body@.len() > 0
                && stmt_span(p.body@[0]).start == old(self).current().span.start)),
            old(self).current().kind == Kind::Eof ==> (r matches Ok(p) && p.body@.len() == 0),
            (old(self).current().kind != Kind::Eof && old(self).current().kind != Kind::Keyword)
                ==> (r matches Err(e) && e matches ParserError::InvalidToken(t) && token_eqv(
                t,
                old(self).current(),
            )),
            (old(self).current().kind == Kind::Keyword && old(self).current().value->Word_0
                != Keyword::Function) ==> (r matches Ok(p) ==> stmt_from_keyword(
                p.body@[0],
                old(self).src(),
                old(self).current(),
            )),
            (old(self).current().kind == Kind::Keyword && old(self).current().value->Word_0
                != Keyword::Function && single_declaration_after(
                old(self).src(),
                old(self).current().span.end as int,
            )) ==> (r matches Ok(p) && p.body@.len() == 1),
            r matches Err(e) ==> err_wf(e, old(self).src()),
            r matches Err(e) ==> err_at(e, final(self).current()),
    {
        let mut body: Vec<Statement> = Vec::new();
        let source_len = self.lexer.src_len();
        loop
            invariant
                self.inv(),
                self.src() == old(self).src(),
                source_len == self.src().len(),
                self.src().len() == 0 ==> body@.len() == 0,
                body@.len() == 0 ==> self.current() == old(self).current(),
                body@.len() > 0 ==> stmt_span(body@[0]).start == old(self).current().span.start,
                (old(self).current().kind != Kind::Eof && old(self).current().kind
                    != Kind::Keyword) ==> body@.len() == 0,
                old(self).current().kind == Kind::Eof ==> body@.len() == 0,
                (old(self).current().kind == Kind::Keyword && old(self).current().value->Word_0
                    != Keyword::Function && body@.len() > 0) ==> stmt_from_keyword(
                    body@[0],
                    self.src(),
                    old(self).current(),
                ),
                (old(self).current().kind == Kind::Keyword && old(self).current().value->Word_0
                    != Keyword::Function && single_declaration_after(
                    self.src(),
                    old(self).current().span.end as int,
                ) && body@.len() > 0) ==> (self.current().kind == Kind::Eof && body@.len() == 1),
                forall|i: int|
                    #![auto]
                    0 <= i < body@.len() ==> stmt_wf(body@[i], self.src()) && stmt_span(
                        body@[i],
                    ).end <= self.prev_end() && stmt_span(body@[i]).end <= self.src().len(),
                forall|i: int, j: int|
                    #![auto]
                    0 <= i < j < body@.len() ==> stmt_span(body@[i]).end <= stmt_span(
                        body@[j],
                    ).start,
            ensures
                self.inv(),
                self.src() == old(self).src(),
                self.src().len() == 0 ==> body@.len() == 0,
                body@.len() == 0 ==> self.current() == old(self).current(),
                self.current().kind == Kind::Eof,
                body@.len() > 0 ==> stmt_span(body@[0]).start == old(self).current().span.start,
                forall|i: int|
                    #![auto]
                    0 <= i < body@.len() ==> stmt_wf(body@[i], self.src()) && stmt_span(
                        body@[i],
                    ).end <= self.src().len(),
                forall|i: int, j: int|
                    #![auto]
                    0 <= i < j < body@.len() ==> stmt_span(body@[i]).end <= stmt_span(
                        body@[j],
                    ).start,
            decreases self.src().len() - self.prev_end(),
        {
            if self.current_token.kind == Kind::Eof {
                break ;
            }
            proof {
                if single_declaration_after(
                    self.src(),
                    old(self).current().span.end as int,
                ) && body@.len() == 0 {
                    let (cds, cq, cte): (Seq<VariableDeclarator>, int, Token) = choose|
                        cds: Seq<VariableDeclarator>,
                        cq: int,
                        cte: Token,
                    |
                        #![auto]
                        declarators_from(
                            self.src(),
                            old(self).current().span.end as int,
                            cds,
                            cq,
                            false,
                        ) && token_from(self.src(), cq, cte) && cte.kind == Kind::Eof;
                    assert(chain_at(self.src(), old(self).current().span.end as int));
                }
            }
            let statement = self.parse_statement()?;
            body.push(statement);
            proof {
                if old(self).current().kind == Kind::Keyword && old(
                    self,
                ).current().value->Word_0 != Keyword::Function && single_declaration_after(
                    self.src(),
                    old(self).current().span.end as int,
                ) && body@.len() == 1 {
                    let (cds, cq, cte): (Seq<VariableDeclarator>, int, Token) = choose|
                        cds: Seq<VariableDeclarator>,
                        cq: int,
                        cte: Token,
                    |
                        #![auto]
                        declarators_from(
                            self.src(),
                            old(self).current().span.end as int,
                            cds,
                            cq,
                            false,
                        ) && token_from(self.src(), cq, cte) && cte.kind == Kind::Eof;
                    let vd = body@[0]->VariableDeclaration_0;
                    lemma_chain_end_unique(
                        self.src(),
                        old(self).current().span.end as int,
                        cds,
                        cq,
                        vd.declarations@,
                        vd.span.end as int,
                    );
                    lemma_scan_deterministic(
                        self.src(),
                        cq,
                        cte,
                        cte.span.end as int,
                        self.current_token,
                        self.current_token.span.end as int,
                    );
                }
            }
        }
        Ok(Program { span: Span { start: 0, end: source_len }, shebang: None, body })
    }

    /// Dispatch one statement on the lookahead token's kind and keyword;
    /// any other token at statement position is invalid.
    pub fn parse_statement(&mut self) -> (r: Result<Statement, ParserError>)
        requires
            old(self).inv(),
            old(self).current().kind != Kind::Eof,
        ensures
            final(self).inv(),
            final(self).src() == old(self).src(),
            r matches Ok(s) ==> stmt_post(
                s,
                old(self).src(),
                old(self).current().span.start as int,
                final(self).prev_end(),
            ),
            r is Ok ==> final(self).prev_end() > old(self).prev_end(),
            r matches Err(e) ==> err_wf(e, old(self).src()),
            r matches Err(e) ==> err_at(e, final(self).current()),
            old(self).current().kind != Kind::Keyword ==> (r matches Err(e)
                && e matches ParserError::InvalidToken(t) && token_eqv(t, old(self).current())),
            (old(self).current().kind == Kind::Keyword && old(self).current().value->Word_0
                == Keyword::Function) ==> (r matches Err(e) && e matches ParserError::Unsupported(
                t,
            ) && token_eqv(t, old(self).current())),
            (old(self).current().kind == Kind::Keyword && old(self).current().value->Word_0
                != Keyword::Function) ==> (r matches Ok(s) ==> (stmt_from_keyword(
                s,
                old(self).src(),
                old(self).current(),
            ) && stmt_span(s).end == final(self).prev_end())),
            (old(self).current().kind == Kind::Keyword && old(self).current().value->Word_0
                != Keyword::Function && chain_at(
                old(self).src(),
                old(self).current().span.end as int,
            )) ==> r is Ok,
    {
        match self.current_token.kind {
            Kind::Keyword => {
                let kw = self.current_token.value.expect_keyword();
                match kw {
                    Keyword::Var | Keyword::Let | Keyword::Const => {
                        let var_dec = self.parse_variable_declaration()?;
                        Ok(Statement::VariableDeclaration(Box::new(var_dec)))
                    },
                    Keyword::Function => {
                        let fn_dec = self.parse_function_declaration()?;
                        Ok(fn_dec)
                    },
                }
            },
            _ => Err(ParserError::InvalidToken(self.current_token.clone())),
        }
    }

    /// Parse one `var`/`let`/`const` declaration with its declarators. Only
    /// numeric-literal initializers are supported; the other initializer
    /// kinds are reserved extension points and fail closed.
    #[verifier::rlimit(100)]
    pub fn parse_variable_declaration(&mut self) -> (r: Result<
        VariableDeclaration,
        ParserError,
    >)
        requires
            old(self).inv(),
            old(self).current().kind == Kind::Keyword,
            old(self).current().value->Word_0 != Keyword::Function,
        ensures
            final(self).inv(),
            final(self).src() == old(self).src(),
            r matches Ok(vd) ==> decl_post(
                vd,
                old(self).src(),
                old(self).current().value->Word_0,
                old(self).current().span.start as int,
                final(self).prev_end(),
            ),
            r is Ok ==> final(self).prev_end() > old(self).prev_end(),
            r matches Ok(vd) ==> declarators_from(
                old(self).src(),
                old(self).current().span.end as int,
                vd.declarations@,
                vd.span.end as int,
                false,
            ),
            chain_at(old(self).src(), old(self).current().span.end as int) ==> r is Ok,
            forall|t: Token|
                (token_from(old(self).src(), old(self).current().span.end as int, t) && t.kind
                    != Kind::Identifier) ==> (r matches Err(e)
                    && e matches ParserError::InvalidToken(t2) && token_eqv(t2, t)),
            r matches Err(e) ==> err_wf(e, old(self).src()),
            r matches Err(e) ==> err_at(e, final(self).current()),
            r matches Err(e) ==> (e matches ParserError::Unsupported(t) ==> (t.kind == Kind::Str
                || t.kind == Kind::Null || t.kind == Kind::OpenBracket || t.kind
                == Kind::OpenBrace || t.kind == Kind::OpenParen)),
            r matches Err(e) ==> (e matches ParserError::Unsupported(t) ==> (exists|
                pe: int,
                eq_t: Token,
            |
                #![auto]
                token_from(old(self).src(), pe, eq_t) && eq_t.kind == Kind::Equals
                    && eq_t.span.end == final(self).prev_end())),
    {
        let start_pos = self.current_token.span.start;
        let kw = self.current_token.value.expect_keyword();
        let kind = match kw {
            Keyword::Var => VariableKind::Var,
            Keyword::Let => VariableKind::Let,
            Keyword::Const => VariableKind::Const,
            Keyword::Function => vstd::pervasive::unreached(),
        };
        let mut declarations: Vec<VariableDeclarator> = Vec::new();
        self.advance();
        loop
            invariant_except_break
                declarators_from(
                    self.src(),
                    old(self).current().span.end as int,
                    declarations@,
                    self.prev_end(),
                    true,
                ),
                chain_at(self.src(), old(self).current().span.end as int) ==> chain_at(
                    self.src(),
                    self.prev_end(),
                ),
            invariant
                self.inv(),
                self.src() == old(self).src(),
                start_pos == old(self).current().span.start,
                start_pos < self.prev_end(),
                self.prev_end() > old(self).prev_end(),
                self.prev_end() > old(self).current().span.end ==> (forall|t: Token|
                    token_from(self.src(), old(self).current().span.end as int, t)
                        ==> t.kind == Kind::Identifier),
                forall|i: int|
                    #![auto]
                    0 <= i < declarations@.len() ==> crate::ast::declarator_wf(
                        declarations@[i],
                        self.src(),
                    ) && start_pos <= declarations@[i].span.start && declarations@[i].span.end
                        <= self.prev_end(),
                forall|i: int, j: int|
                    #![auto]
                    0 <= i < j < declarations@.len() ==> declarations@[i].span.end
                        <= declarations@[j].span.start,
            ensures
                self.inv(),
                self.src() == old(self).src(),
                start_pos < self.prev_end(),
                self.prev_end() > old(self).prev_end(),
                declarations@.len() > 0,
                forall|t: Token|
                    token_from(self.src(), old(self).current().span.end as int, t) ==> t.kind
                        == Kind::Identifier,
                declarators_from(
                    self.src(),
                    old(self).current().span.end as int,
                    declarations@,
                    self.prev_end(),
                    false,
                ),
                forall|i: int|
                    #![auto]
                    0 <= i < declarations@.len() ==> crate::ast::declarator_wf(
                        declarations@[i],
                        self.src(),
                    ) && start_pos <= declarations@[i].span.start && declarations@[i].span.end
                        <= self.prev_end(),
                forall|i: int, j: int|
                    #![auto]
                    0 <= i < j < declarations@.len() ==> declarations@[i].span.end
                        <= declarations@[j].span.start,
            decreases self.src().len() - self.prev_end(),
        {
            let ghost p_iter = self.prev_end();
            let ghost ds_prev = declarations@;
            let start = self.current_token.span.start;
            proof {
                if chain_at(self.src(), p_iter) {
                    let (cds, cq): (Seq<VariableDeclarator>, int) = choose|
                        cds: Seq<VariableDeclarator>,
                        cq: int,
                    |
                        #![auto]
                        declarators_from(self.src(), p_iter, cds, cq, false);
                    let w = lemma_chain_head(self.src(), p_iter, cds, cq);
                    lemma_scan_deterministic(
                        self.src(),
                        p_iter,
                        w.2,
                        w.2.span.end as int,
                        self.current_token,
                        self.current_token.span.end as int,
                    );
                }
                if p_iter == old(self).current().span.end as int {
                    assert forall|t: Token|
                        token_from(self.src(), p_iter, t) implies (t.kind
                        == self.current_token.kind && t.span == self.current_token.span
                        && crate::token::value_eqv(t.value, self.current_token.value)) by {
                        lemma_scan_deterministic(
                            self.src(),
                            p_iter,
                            self.current_token,
                            self.current_token.span.end as int,
                            t,
                            t.span.end as int,
                        );
                    }
                }
            }
            self.expect_token_kind(
                Kind::Identifier,
                ParserError::InvalidToken(self.current_token.clone()),
            )?;
            let ghost id_tok = self.current_token;
            proof {
                if p_iter == old(self).current().span.end as int {
                    assert forall|t: Token|
                        token_from(self.src(), p_iter, t) implies t.kind == Kind::Identifier by {
                        lemma_scan_deterministic(
                            self.src(),
                            p_iter,
                            t,
                            t.span.end as int,
                            self.current_token,
                            self.current_token.span.end as int,
                        );
                    }
                }
            }
            let name = atom_clone(self.current_token.value.expect_atom());
            let identifier = Identifier {
                span: Span { start, end: self.current_token.span.end },
                name,
            };
            self.advance();
            let ghost after_id_tok = self.current_token;

            if self.current_token.kind == Kind::Comma {
                let d = VariableDeclarator {
                    span: Span { start, end: self.current_token.span.end },
                    id: identifier,
                    init: None,
                };
                proof {
                    assert(token_from(self.src(), p_iter, id_tok));
                    assert(token_from(self.src(), id_tok.span.end as int, after_id_tok));
                    assert(declarator_step_with(
                        self.src(),
                        p_iter,
                        d,
                        after_id_tok.span.end as int,
                        true,
                        id_tok,
                        after_id_tok,
                    ));
                    assert(declarator_step(
                        self.src(),
                        p_iter,
                        d,
                        after_id_tok.span.end as int,
                        true,
                    ));
                    lemma_declarators_push(
                        self.src(),
                        old(self).current().span.end as int,
                        ds_prev,
                        p_iter,
                        d,
                        after_id_tok.span.end as int,
                        true,
                    );
                }
                declarations.push(d);
                self.advance();
                continue ;
            }
            if self.current_token.kind != Kind::Equals {
                // a bare declarator such as `let a`: no initializer and no
                // further declarators follow
                let id_end = identifier.span.end;
                let d = VariableDeclarator {
                    span: Span { start, end: id_end },
                    id: identifier,
                    init: None,
                };
                proof {
                    assert(token_from(self.src(), p_iter, id_tok));
                    assert(token_from(self.src(), id_tok.span.end as int, after_id_tok));
                    assert(declarator_step_with(
                        self.src(),
                        p_iter,
                        d,
                        id_tok.span.end as int,
                        false,
                        id_tok,
                        after_id_tok,
                    ));
                    assert(declarator_step(self.src(), p_iter, d, id_tok.span.end as int, false));
                    lemma_declarators_push(
                        self.src(),
                        old(self).current().span.end as int,
                        ds_prev,
                        p_iter,
                        d,
                        id_tok.span.end as int,
                        false,
                    );
                }
                declarations.push(d);
                break ;
            }
            self.advance();
            let ghost num_tok = self.current_token;

            let decl = match self.current_token.kind {
                Kind::Number => {
                    let value = self.current_token.value.expect_number();
                    let lit_span = self.current_token.span;
                    VariableDeclarator {
                        span: Span { start, end: lit_span.end },
                        id: identifier,
                        init: Some(
                            Expression::Literal(
                                Box::new(Literal::Number(NumberLiteral { span: lit_span, value })),
                            ),
                        ),
                    }
                },
                Kind::Str | Kind::Null | Kind::OpenBracket | Kind::OpenBrace | Kind::OpenParen => {
                    proof {
                        assert(token_from(self.src(), id_tok.span.end as int, after_id_tok));
                    }
                    return Err(ParserError::Unsupported(self.current_token.clone()));
                },
                _ => {
                    return Err(ParserError::InvalidToken(self.current_token.clone()));
                },
            };
            let ghost dg = decl;
            declarations.push(decl);
            self.advance();
            let ghost after_num_tok = self.current_token;

            if self.current_token.kind != Kind::Comma {
                proof {
                    assert(token_from(self.src(), p_iter, id_tok));
                    assert(token_from(self.src(), id_tok.span.end as int, after_id_tok));
                    assert(token_from(self.src(), after_id_tok.span.end as int, num_tok));
                    assert(token_from(self.src(), num_tok.span.end as int, after_num_tok));
                    assert(init_step_with(
                        self.src(),
                        dg,
                        num_tok.span.end as int,
                        false,
                        id_tok,
                        after_id_tok,
                        num_tok,
                        after_num_tok,
                    ));
                    assert(declarator_step_with(
                        self.src(),
                        p_iter,
                        dg,
                        num_tok.span.end as int,
                        false,
                        id_tok,
                        after_id_tok,
                    ));
                    assert(declarator_step(self.src(), p_iter, dg, num_tok.span.end as int, false));
                    lemma_declarators_push(
                        self.src(),
                        old(self).current().span.end as int,
                        ds_prev,
                        p_iter,
                        dg,
                        num_tok.span.end as int,
                        false,
                    );
                }
                break ;
            }
            proof {
                assert(token_from(self.src(), p_iter, id_tok));
                assert(token_from(self.src(), id_tok.span.end as int, after_id_tok));
                assert(token_from(self.src(), after_id_tok.span.end as int, num_tok));
                assert(token_from(self.src(), num_tok.span.end as int, after_num_tok));
                assert(init_step_with(
                    self.src(),
                    dg,
                    after_num_tok.span.end as int,
                    true,
                    id_tok,
                    after_id_tok,
                    num_tok,
                    after_num_tok,
                ));
                assert(declarator_step_with(
                    self.src(),
                    p_iter,
                    dg,
                    after_num_tok.span.end as int,
                    true,
                    id_tok,
                    after_id_tok,
                ));
                assert(declarator_step(
                    self.src(),
                    p_iter,
                    dg,
                    after_num_tok.span.end as int,
                    true,
                ));
                lemma_declarators_push(
                    self.src(),
                    old(self).current().span.end as int,
                    ds_prev,
                    p_iter,
                    dg,
                    after_num_tok.span.end as int,
                    true,
                );
            }
            self.advance();
        }
        Ok(
            VariableDeclaration {
                span: Span { start: start_pos, end: self.prev_token_end },
                kind,
                declarations,
            },
        )
    }

    /// Function declarations are recognized at dispatch but the node set
    /// has no constructor for them yet: they fail closed.
    pub fn parse_function_declaration(&mut self) -> (r: Result<Statement, ParserError>)
        requires
            old(self).inv(),
        ensures
            final(self).inv(),
            final(self).src() == old(self).src(),
            final(self).current() == old(self).current(),
            r is Err,
            r matches Err(e) ==> (e matches ParserError::Unsupported(t) && token_eqv(
                t,
                old(self).current(),
            ) && err_wf(e, old(self).src())),
            r matches Err(e) ==> err_at(e, final(self).current()),
    {
        Err(ParserError::Unsupported(self.current_token.clone()))
    }

    /// Parse one expression by precedence climbing, starting at the lowest
    /// binding strength.
    pub fn parse_expression(&mut self) -> (r: Result<Expression, ParserError>)
        requires
            old(self).inv(),
        ensures
            final(self).inv(),
            final(self).src() == old(self).src(),
            r matches Ok(e) ==> expr_post(
                e,
                old(self).src(),
                old(self).current().span.start as int,
                final(self).prev_end(),
            ),
            r is Ok ==> final(self).prev_end() > old(self).prev_end(),
            r matches Err(e) ==> err_wf(e, old(self).src()),
            r matches Err(e) ==> err_at(e, final(self).current()),
    {
        self.parse_binary_expression(0)
    }

    /// The binary-operator loop: repeatedly consume an operator whose
    /// precedence is at least `min_prec`, parse the right operand at the
    /// next precedence (or the same one for the right-associative `**`),
    /// and fold the result into a `BinaryExpression`.
    fn parse_binary_expression(&mut self, min_prec: u32) -> (r: Result<Expression, ParserError>)
        requires
            old(self).inv(),
        ensures
            final(self).inv(),
            final(self).src() == old(self).src(),
            r matches Ok(e) ==> expr_post(
                e,
                old(self).src(),
                old(self).current().span.start as int,
                final(self).prev_end(),
            ),
            r is Ok ==> final(self).prev_end() > old(self).prev_end(),
            r matches Err(e) ==> err_wf(e, old(self).src()),
            r matches Err(e) ==> err_at(e, final(self).current()),
        decreases old(self).src().len() - old(self).prev_end(), 2int,
    {
        let mut left = self.parse_unary_expression()?;
        loop
            invariant
                self.inv(),
                self.src() == old(self).src(),
                expr_wf(left, self.src()),
                old(self).current().span.start <= expr_span(left).start,
                expr_span(left).end <= self.prev_end(),
                self.prev_end() > old(self).prev_end(),
            ensures
                self.inv(),
                self.src() == old(self).src(),
                expr_wf(left, self.src()),
                old(self).current().span.start <= expr_span(left).start,
                expr_span(left).end <= self.prev_end(),
                self.prev_end() > old(self).prev_end(),
            decreases self.src().len() - self.prev_end(),
        {
            let (is_op, prec, right_assoc, op): (bool, u32, bool, ArithmeticOperator) =
                match self.current_token.kind {
                Kind::Plus => (true, 1, false, ArithmeticOperator::Add),
                Kind::Minus => (true, 1, false, ArithmeticOperator::Sub),
                Kind::Star => (true, 2, false, ArithmeticOperator::Mul),
                Kind::Slash => (true, 2, false, ArithmeticOperator::Div),
                Kind::StarStar => (true, 3, true, ArithmeticOperator::Pow),
                _ => (false, 0, false, ArithmeticOperator::Add),
            };
            if !is_op || prec < min_prec {
                break ;
            }
            self.advance();
            let next_min: u32 = if right_assoc {
                prec
            } else {
                prec + 1
            };
            let right = self.parse_binary_expression(next_min)?;
            let l_span = left.span();
            let r_span = right.span();
            left =
            Expression::Binary(
                Box::new(
                    BinaryExpression {
                        span: Span { start: l_span.start, end: r_span.end },
                        operator: op,
                        left: Box::new(left),
                        right: Box::new(right),
                    },
                ),
            );
        }
        Ok(left)
    }

    /// Unary prefix operators bind tighter than any binary operator.
    fn parse_unary_expression(&mut self) -> (r: Result<Expression, ParserError>)
        requires
            old(self).inv(),
        ensures
            final(self).inv(),
            final(self).src() == old(self).src(),
            r matches Ok(e) ==> expr_post(
                e,
                old(self).src(),
                old(self).current().span.start as int,
                final(self).prev_end(),
            ),
            r is Ok ==> final(self).prev_end() > old(self).prev_end(),
            r matches Err(e) ==> err_wf(e, old(self).src()),
            r matches Err(e) ==> err_at(e, final(self).current()),
        decreases old(self).src().len() - old(self).prev_end(), 1int,
    {
        if self.current_token.kind == Kind::Minus {
            let start = self.current_token.span.start;
            self.advance();
            let operand = self.parse_unary_expression()?;
            let o_span = operand.span();
            Ok(
                Expression::Unary(
                    Box::new(
                        UnaryExpression {
                            span: Span { start, end: o_span.end },
                            operator: UnaryOperator::Neg,
                            operand: Box::new(operand),
                        },
                    ),
                ),
            )
        } else {
            self.parse_primary_expression()
        }
    }

    /// The base step: literals, identifiers, and parenthesized
    /// sub-expressions, followed by the postfix loop for member access and
    /// calls, which bind tighter than any operator. String, array and
    /// object literals are reserved extension points and fail closed.
    fn parse_primary_expression(&mut self) -> (r: Result<Expression, ParserError>)
        requires
            old(self).inv(),
        ensures
            final(self).inv(),
            final(self).src() == old(self).src(),
            r matches Ok(e) ==> expr_post(
                e,
                old(self).src(),
                old(self).current().span.start as int,
                final(self).prev_end(),
            ),
            r is Ok ==> final(self).prev_end() > old(self).prev_end(),
            r matches Err(e) ==> err_wf(e, old(self).src()),
            r matches Err(e) ==> err_at(e, final(self).current()),
        decreases old(self).src().len() - old(self).prev_end(), 0int,
    {
        let mut expr = match self.current_token.kind {
            Kind::Number => {
                let value = self.current_token.value.expect_number();
                let sp = self.current_token.span;
                self.advance();
                Expression::Literal(Box::new(Literal::Number(NumberLiteral { span: sp, value })))
            },
            Kind::Identifier => {
                let name = atom_clone(self.current_token.value.expect_atom());
                let sp = self.current_token.span;
                self.advance();
                Expression::Identifier(Box::new(Identifier { span: sp, name }))
            },
            Kind::OpenParen => {
                self.advance();
                let inner = self.parse_binary_expression(0)?;
                self.expect_token_kind(
                    Kind::CloseParen,
                    ParserError::InvalidToken(self.current_token.clone()),
                )?;
                self.advance();
                inner
            },
            Kind::Str | Kind::OpenBracket | Kind::OpenBrace => {
                return Err(ParserError::Unsupported(self.current_token.clone()));
            },
            _ => {
                return Err(ParserError::InvalidToken(self.current_token.clone()));
            },
        };
        loop
            invariant
                self.inv(),
                self.src() == old(self).src(),
                expr_wf(expr, self.src()),
                old(self).current().span.start <= expr_span(expr).start,
                expr_span(expr).end <= self.prev_end(),
                self.prev_end() > old(self).prev_end(),
            ensures
                self.inv(),
                self.src() == old(self).src(),
                expr_wf(expr, self.src()),
                old(self).current().span.start <= expr_span(expr).start,
                expr_span(expr).end <= self.prev_end(),
                self.prev_end() > old(self).prev_end(),
            decreases self.src().len() - self.prev_end(),
        {
            if self.current_token.kind == Kind::Dot {
                self.advance();
                self.expect_token_kind(
                    Kind::Identifier,
                    ParserError::InvalidToken(self.current_token.clone()),
                )?;
                let name = atom_clone(self.current_token.value.expect_atom());
                let prop_span = self.current_token.span;
                let property = Expression::Identifier(Box::new(Identifier { span: prop_span, name }));
                proof {
                    assert(expr_wf(property, self.src()));
                }
                self.advance();
                let e_span = expr.span();
                expr =
                Expression::Member(
                    Box::new(
                        MemberExpression {
                            span: Span { start: e_span.start, end: prop_span.end },
                            object: Box::new(expr),
                            property: Box::new(property),
                            computed: false,
                        },
                    ),
                );
            } else if self.current_token.kind == Kind::OpenBracket {
                self.advance();
                let index = self.parse_binary_expression(0)?;
                self.expect_token_kind(
                    Kind::CloseBracket,
                    ParserError::InvalidToken(self.current_token.clone()),
                )?;
                let close_end = self.current_token.span.end;
                self.advance();
                let e_span = expr.span();
                expr =
                Expression::Member(
                    Box::new(
                        MemberExpression {
                            span: Span { start: e_span.start, end: close_end },
                            object: Box::new(expr),
                            property: Box::new(index),
                            computed: true,
                        },
                    ),
                );
            } else if self.current_token.kind == Kind::OpenParen {
                self.advance();
                let ghost open_prev_end = self.prev_end();
                let mut arguments: Vec<Expression> = Vec::new();
                if self.current_token.kind != Kind::CloseParen {
                    loop
                        invariant
                            self.prev_end() >= open_prev_end,
                            self.inv(),
                            self.src() == old(self).src(),
                            expr_wf(expr, self.src()),
                            old(self).current().span.start <= expr_span(expr).start,
                            expr_span(expr).end <= self.prev_end(),
                            self.prev_end() > old(self).prev_end(),
                            forall|k: int|
                                #![auto]
                                0 <= k < arguments@.len() ==> expr_wf(arguments@[k], self.src())
                                    && expr_span(expr).start <= expr_span(arguments@[k]).start
                                    && expr_span(arguments@[k]).end <= self.prev_end(),
                        ensures
                            self.prev_end() >= open_prev_end,
                            self.inv(),
                            self.src() == old(self).src(),
                            expr_wf(expr, self.src()),
                            old(self).current().span.start <= expr_span(expr).start,
                            expr_span(expr).end <= self.prev_end(),
                            self.prev_end() > old(self).prev_end(),
                            forall|k: int|
                                #![auto]
                                0 <= k < arguments@.len() ==> expr_wf(arguments@[k], self.src())
                                    && expr_span(expr).start <= expr_span(arguments@[k]).start
                                    && expr_span(arguments@[k]).end <= self.prev_end(),
                        decreases self.src().len() - self.prev_end(),
                    {
                        let arg = self.parse_binary_expression(0)?;
                        arguments.push(arg);
                        if self.current_token.kind == Kind::Comma {
                            self.advance();
                        } else {
                            break ;
                        }
                    }
                }
                self.expect_token_kind(
                    Kind::CloseParen,
                    ParserError::InvalidToken(self.current_token.clone()),
                )?;
                let close_end = self.current_token.span.end;
                self.advance();
                let e_span = expr.span();
                expr =
                Expression::Call(
                    Box::new(
                        CallExpression {
                            span: Span { start: e_span.start, end: close_end },
                            callee: Box::new(expr),
                            arguments,
                        },
                    ),
                );
            } else {
                break ;
            }
        }
        Ok(expr)
    }
}

} // verus!
