//! The AST data model: span-tagged nodes built exactly once per parse and
//! owned exclusively by their parents. The `*_wf` spec functions state each
//! node's well-formedness against the source it was parsed from: spans lie
//! inside the buffer, a parent's span contains every child's span, a
//! declaration holds at least one declarator, and an identifier's interned
//! name is exactly its spanned text.

use crate::interner::{atom_bytes, atom_to_bytes};
use crate::token::{is_digit, num_mantissa, num_scale, NumberValue, Span};
use string_cache::DefaultAtom;
use vstd::prelude::*;

verus! {

/// An identifier with its interned name.
#[derive(Debug, PartialEq)]
pub struct Identifier {
    pub span: Span,
    pub name: DefaultAtom,
}

impl Identifier {
    pub fn new(name: DefaultAtom, start: usize, end: usize) -> (r: Identifier)
        ensures
            r.span.start == start,
            r.span.end == end,
            r.name == name,
    {
        Identifier { span: Span { start, end }, name }
    }

    /// The bytes of the interned name.
    pub fn name_bytes(&self) -> (r: Vec<u8>)
        ensures
            r@ == atom_bytes(self.name),
    {
        atom_to_bytes(&self.name)
    }
}

/// A numeric literal with its eagerly read payload.
#[derive(Debug, PartialEq)]
pub struct NumberLiteral {
    pub span: Span,
    pub value: NumberValue,
}

/// Literal payload kinds; only numbers are produced today, the other kinds
/// of the language are reserved extension points.
#[derive(Debug, PartialEq)]
pub enum Literal {
    Number(NumberLiteral),
}

/// The closed set of binary operators.
#[derive(Clone, Copy, PartialEq, Eq, Structural, Debug)]
pub enum ArithmeticOperator {
    Add,
    Sub,
    Mul,
    Div,
    Pow,
}

/// The closed set of unary prefix operators.
#[derive(Clone, Copy, PartialEq, Eq, Structural, Debug)]
pub enum UnaryOperator {
    Neg,
}

/// A binary operation owning both operands.
#[derive(Debug, PartialEq)]
pub struct BinaryExpression {
    pub span: Span,
    pub operator: ArithmeticOperator,
    pub left: Box<Expression>,
    pub right: Box<Expression>,
}

/// A unary prefix operation owning its operand.
#[derive(Debug, PartialEq)]
pub struct UnaryExpression {
    pub span: Span,
    pub operator: UnaryOperator,
    pub operand: Box<Expression>,
}

/// Member access, either `object.property` (`computed: false`, the
/// property is an identifier) or `object[property]` (`computed: true`, the
/// property is any expression).
#[derive(Debug, PartialEq)]
pub struct MemberExpression {
    pub span: Span,
    pub object: Box<Expression>,
    pub property: Box<Expression>,
    pub computed: bool,
}

/// A call wrapping its callee and owning its argument list.
#[derive(Debug, PartialEq)]
pub struct CallExpression {
    pub span: Span,
    pub callee: Box<Expression>,
    pub arguments: Vec<Expression>,
}

/// An expression node; every variant carries its own span and exclusively
/// owns its children.
#[derive(Debug, PartialEq)]
pub enum Expression {
    Literal(Box<Literal>),
    Identifier(Box<Identifier>),
    Binary(Box<BinaryExpression>),
    Unary(Box<UnaryExpression>),
    Member(Box<MemberExpression>),
    Call(Box<CallExpression>),
}

/// Which keyword introduced a variable declaration.
#[derive(Clone, Copy, PartialEq, Eq, Structural, Debug)]
pub enum VariableKind {
    Var,
    Let,
    Const,
}

/// One `name [= initializer]` unit of a variable declaration.
#[derive(Debug, PartialEq)]
pub struct VariableDeclarator {
    pub span: Span,
    pub id: Identifier,
    pub init: Option<Expression>,
}

/// A `var`/`let`/`const` statement with its declarators.
#[derive(Debug, PartialEq)]
pub struct VariableDeclaration {
    pub span: Span,
    pub kind: VariableKind,
    pub declarations: Vec<VariableDeclarator>,
}

/// A statement node.
#[derive(Debug, PartialEq)]
pub enum Statement {
    VariableDeclaration(Box<VariableDeclaration>),
}

/// The root node: owns its body exclusively.
#[derive(Debug, PartialEq)]
pub struct Program {
    pub span: Span,
    pub shebang: Option<String>,
    pub body: Vec<Statement>,
}

impl From<Identifier> for Expression {
    fn from(value: Identifier) -> (r: Self)
        ensures
            r == Expression::Identifier(Box::new(value)),
    {
        Expression::Identifier(Box::new(value))
    }
}

impl vstd::std_specs::convert::FromSpecImpl<Identifier> for Expression {
    open spec fn obeys_from_spec() -> bool {
        true
    }

    open spec fn from_spec(value: Identifier) -> Expression {
        Expression::Identifier(Box::new(value))
    }
}

pub open spec fn literal_span(l: Literal) -> Span {
    match l {
        Literal::Number(n) => n.span,
    }
}

/// The span any expression node carries.
pub open spec fn expr_span(e: Expression) -> Span {
    match e {
        Expression::Literal(l) => literal_span(*l),
        Expression::Identifier(id) => id.span,
        Expression::Binary(b) => b.span,
        Expression::Unary(u) => u.span,
        Expression::Member(m) => m.span,
        Expression::Call(c) => c.span,
    }
}

impl Expression {
    /// The span this node carries.
    pub fn span(&self) -> (s: Span)
        ensures
            s == expr_span(*self),
    {
        match self {
            Expression::Literal(l) => match &**l {
                Literal::Number(n) => n.span,
            },
            Expression::Identifier(id) => id.span,
            Expression::Binary(b) => b.span,
            Expression::Unary(u) => u.span,
            Expression::Member(m) => m.span,
            Expression::Call(c) => c.span,
        }
    }
}

/// A literal is well-formed against the source it was parsed from when its
/// payload is exactly the value read eagerly from its spanned text: the
/// digits with the dot removed as the mantissa, the count of digits after
/// the dot as the scale.
pub open spec fn literal_matches(l: Literal, src: Seq<u8>) -> bool {
    match l {
        Literal::Number(n) => {
            let w = src.subrange(n.span.start as int, n.span.end as int);
            &&& n.span.start < n.span.end
            &&& is_digit(src[n.span.start as int])
            &&& n.value.mantissa == num_mantissa(w)
            &&& n.value.scale == num_scale(w)
        },
    }
}

/// An identifier is well-formed against the source it was parsed from when
/// its span lies in the buffer and its interned name is exactly the spanned
/// text.
pub open spec fn ident_wf(id: Identifier, src: Seq<u8>) -> bool {
    &&& id.span.start <= id.span.end
    &&& id.span.end <= src.len()
    &&& atom_bytes(id.name) == src.subrange(id.span.start as int, id.span.end as int)
}

/// An expression is well-formed when its span lies in the buffer, contains
/// every child's span, and all children are well-formed in turn.
pub open spec fn expr_wf(e: Expression, src: Seq<u8>) -> bool
    decreases e,
{
    &&& expr_span(e).start <= expr_span(e).end
    &&& expr_span(e).end <= src.len()
    &&& match e {
        Expression::Literal(l) => literal_matches(*l, src),
        Expression::Identifier(id) => ident_wf(*id, src),
        Expression::Binary(b) => {
            &&& b.span.start <= expr_span(*b.left).start
            &&& expr_span(*b.left).end <= b.span.end
            &&& b.span.start <= expr_span(*b.right).start
            &&& expr_span(*b.right).end <= b.span.end
            &&& expr_wf(*b.left, src)
            &&& expr_wf(*b.right, src)
        },
        Expression::Unary(u) => {
            &&& u.span.start <= expr_span(*u.operand).start
            &&& expr_span(*u.operand).end <= u.span.end
            &&& expr_wf(*u.operand, src)
        },
        Expression::Member(m) => {
            &&& m.span.start <= expr_span(*m.object).start
            &&& expr_span(*m.object).end <= m.span.end
            &&& m.span.start <= expr_span(*m.property).start
            &&& expr_span(*m.property).end <= m.span.end
            &&& expr_wf(*m.object, src)
            &&& expr_wf(*m.property, src)
        },
        Expression::Call(c) => {
            &&& c.span.start <= expr_span(*c.callee).start
            &&& expr_span(*c.callee).end <= c.span.end
            &&& expr_wf(*c.callee, src)
            &&& forall|i: int|
                #![auto]
                0 <= i < c.arguments@.len() ==> c.span.start <= expr_span(
                    c.arguments@[i],
                ).start && expr_span(c.arguments@[i]).end <= c.span.end && expr_wf(
                    c.arguments@[i],
                    src,
                )
        },
    }
}

/// A declarator's span starts at its identifier's (non-empty) span and
/// contains it and, when present, the initializer's span.
pub open spec fn declarator_wf(d: VariableDeclarator, src: Seq<u8>) -> bool {
    &&& d.span.start <= d.span.end
    &&& d.span.end <= src.len()
    &&& d.span.start == d.id.span.start
    &&& d.id.span.start < d.id.span.end
    &&& d.id.span.end <= d.span.end
    &&& ident_wf(d.id, src)
    &&& match d.init {
        Some(e) => d.span.start <= expr_span(e).start && expr_span(e).end <= d.span.end
            && expr_wf(e, src),
        None => true,
    }
}

/// A declaration holds at least one declarator, and its span contains every
/// declarator's span.
pub open spec fn declaration_wf(vd: VariableDeclaration, src: Seq<u8>) -> bool {
    &&& vd.span.start <= vd.span.end
    &&& vd.span.end <= src.len()
    &&& vd.declarations@.len() > 0
    &&& forall|i: int|
        #![auto]
        0 <= i < vd.declarations@.len() ==> vd.span.start <= vd.declarations@[i].span.start
            && vd.declarations@[i].span.end <= vd.span.end && declarator_wf(
            vd.declarations@[i],
            src,
        )
}

/// Declarators stand in source order, without overlap and with strictly
/// increasing starts.
pub open spec fn declarators_ordered(vd: VariableDeclaration) -> bool {
    forall|i: int, j: int|
        #![auto]
        0 <= i < j < vd.declarations@.len() ==> vd.declarations@[i].span.end
            <= vd.declarations@[j].span.start && vd.declarations@[i].span.start
            < vd.declarations@[j].span.start
}

pub open spec fn stmt_span(s: Statement) -> Span {
    match s {
        Statement::VariableDeclaration(vd) => vd.span,
    }
}

pub open spec fn stmt_wf(s: Statement, src: Seq<u8>) -> bool {
    match s {
        Statement::VariableDeclaration(vd) => declaration_wf(*vd, src) && declarators_ordered(
            *vd,
        ),
    }
}

/// Statements stand in source order without overlap.
pub open spec fn stmts_ordered(p: Program) -> bool {
    forall|i: int, j: int|
        #![auto]
        0 <= i < j < p.body@.len() ==> stmt_span(p.body@[i]).end <= stmt_span(p.body@[j]).start
}

/// The program's span contains every statement's span, and every statement
/// is well-formed in turn.
pub open spec fn program_wf(p: Program, src: Seq<u8>) -> bool {
    &&& p.span.start <= p.span.end
    &&& p.span.end <= src.len()
    &&& forall|i: int|
        #![auto]
        0 <= i < p.body@.len() ==> p.span.start <= stmt_span(p.body@[i]).start && stmt_span(
            p.body@[i],
        ).end <= p.span.end && stmt_wf(p.body@[i], src)
}

} // verus!
