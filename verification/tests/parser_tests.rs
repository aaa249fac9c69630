use jsparse::ast::{
    ArithmeticOperator, BinaryExpression, CallExpression, Expression, Identifier, Literal,
    MemberExpression, NumberLiteral, Program, Statement, UnaryExpression, UnaryOperator,
    VariableDeclaration, VariableDeclarator, VariableKind,
};
use jsparse::parser::{Parser, ParserError};
use jsparse::token::{Kind, NumberValue, Span, Token, TokenValue};
use string_cache::DefaultAtom as Atom;

fn number_literal(mantissa: u64, scale: usize, start: usize, end: usize) -> Expression {
    Expression::Literal(Box::new(Literal::Number(NumberLiteral {
        span: Span { start, end },
        value: NumberValue { mantissa, scale },
    })))
}

#[test]
fn empty_program() {
    let source_code = "";
    let mut parser = Parser::new(&source_code);
    let result = parser.parse();

    assert_eq!(
        result,
        Ok(Program {
            span: Span { start: 0, end: 0 },
            shebang: None,
            body: vec![],
        })
    );
}

#[test]
fn variable_decl() {
    let source_code = "let a = 50.5";
    let mut parser = Parser::new(&source_code);
    let result = parser.parse();

    let expected = Program {
        span: Span { start: 0, end: source_code.len() },
        shebang: None,
        body: vec![Statement::VariableDeclaration(Box::new(VariableDeclaration {
            span: Span { start: 0, end: source_code.len() },
            declarations: vec![VariableDeclarator {
                span: Span { start: 4, end: source_code.len() },
                id: Identifier::new(Atom::from("a"), 4, 5),
                init: Some(number_literal(505, 1, 8, source_code.len())),
            }],
            kind: VariableKind::Let,
        }))],
    };

    assert_eq!(result, Ok(expected));
}

#[test]
fn number_payload_reconstructs_value() {
    let mut parser = Parser::new("let a = 50.5");
    let program = parser.parse().unwrap();
    let Statement::VariableDeclaration(decl) = &program.body[0];
    let init = decl.declarations[0].init.as_ref().unwrap();
    match init {
        Expression::Literal(lit) => {
            let Literal::Number(n) = &**lit;
            let value = n.value.mantissa as f64 / 10f64.powi(n.value.scale as i32);
            assert_eq!(value, 50.5);
        }
        other => panic!("expected a number literal, got {:?}", other),
    }
}

#[test]
fn multi_declarator_without_initializer() {
    let source_code = "let a, b = 1";
    let mut parser = Parser::new(&source_code);
    let result = parser.parse();

    let expected = Program {
        span: Span { start: 0, end: 12 },
        shebang: None,
        body: vec![Statement::VariableDeclaration(Box::new(VariableDeclaration {
            span: Span { start: 0, end: 12 },
            declarations: vec![
                VariableDeclarator {
                    span: Span { start: 4, end: 6 },
                    id: Identifier::new(Atom::from("a"), 4, 5),
                    init: None,
                },
                VariableDeclarator {
                    span: Span { start: 7, end: 12 },
                    id: Identifier::new(Atom::from("b"), 7, 8),
                    init: Some(number_literal(1, 0, 11, 12)),
                },
            ],
            kind: VariableKind::Let,
        }))],
    };

    assert_eq!(result, Ok(expected));
}

#[test]
fn bare_declarator_is_kept() {
    let mut parser = Parser::new("let a");
    let program = parser.parse().unwrap();
    let Statement::VariableDeclaration(decl) = &program.body[0];
    assert_eq!(decl.span, Span { start: 0, end: 5 });
    assert_eq!(decl.declarations.len(), 1);
    assert_eq!(decl.declarations[0].span, Span { start: 4, end: 5 });
    assert_eq!(decl.declarations[0].init, None);
}

#[test]
fn var_and_const_kinds() {
    let mut parser = Parser::new("var x = 1");
    let program = parser.parse().unwrap();
    let Statement::VariableDeclaration(decl) = &program.body[0];
    assert_eq!(decl.kind, VariableKind::Var);

    let mut parser = Parser::new("const y = 2");
    let program = parser.parse().unwrap();
    let Statement::VariableDeclaration(decl) = &program.body[0];
    assert_eq!(decl.kind, VariableKind::Const);
}

#[test]
fn invalid_token_at_statement_position() {
    let mut parser = Parser::new("+");
    let result = parser.parse();
    assert_eq!(
        result,
        Err(ParserError::InvalidToken(Token {
            kind: Kind::Plus,
            value: TokenValue::Empty,
            span: Span { start: 0, end: 1 },
        }))
    );
}

#[test]
fn unsupported_initializer_fails_closed() {
    let mut parser = Parser::new("let a = null");
    let result = parser.parse();
    assert_eq!(
        result,
        Err(ParserError::Unsupported(Token {
            kind: Kind::Null,
            value: TokenValue::Empty,
            span: Span { start: 8, end: 12 },
        }))
    );
}

#[test]
fn unsupported_function_declaration() {
    let mut parser = Parser::new("function f() {}");
    let result = parser.parse();
    match result {
        Err(ParserError::Unsupported(t)) => {
            assert_eq!(t.kind, Kind::Keyword);
            assert_eq!(t.span, Span { start: 0, end: 8 });
        }
        other => panic!("expected an unsupported-construct error, got {:?}", other),
    }
}

#[test]
fn missing_identifier_is_invalid() {
    let mut parser = Parser::new("let = 1");
    let result = parser.parse();
    match result {
        Err(ParserError::InvalidToken(t)) => {
            assert_eq!(t.kind, Kind::Equals);
            assert_eq!(t.span, Span { start: 4, end: 5 });
        }
        other => panic!("expected an invalid-token error, got {:?}", other),
    }
}

#[test]
fn malformed_number_is_invalid() {
    let mut parser = Parser::new("let a = 1.2.3");
    let result = parser.parse();
    match result {
        Err(ParserError::InvalidToken(t)) => {
            assert_eq!(t.kind, Kind::Invalid);
            assert_eq!(t.span, Span { start: 8, end: 13 });
        }
        other => panic!("expected an invalid-token error, got {:?}", other),
    }
}

#[test]
fn oversized_mantissa_is_invalid() {
    // twenty nines do not fit into a u64 mantissa
    let mut parser = Parser::new("let a = 99999999999999999999");
    let result = parser.parse();
    match result {
        Err(ParserError::InvalidToken(t)) => {
            assert_eq!(t.kind, Kind::Invalid);
            assert_eq!(t.span, Span { start: 8, end: 28 });
        }
        other => panic!("expected an invalid-token error, got {:?}", other),
    }
}

#[test]
fn leading_whitespace_shifts_spans() {
    let mut parser = Parser::new("   let a = 1");
    let program = parser.parse().unwrap();
    assert_eq!(program.span, Span { start: 0, end: 12 });
    let Statement::VariableDeclaration(decl) = &program.body[0];
    assert_eq!(decl.span, Span { start: 3, end: 12 });
    assert_eq!(decl.declarations[0].id.span, Span { start: 7, end: 8 });
}

#[test]
fn interned_name_matches_source() {
    let mut parser = Parser::new("let abc = 1");
    let program = parser.parse().unwrap();
    let Statement::VariableDeclaration(decl) = &program.body[0];
    let id = &decl.declarations[0].id;
    assert_eq!(id.name, Atom::from("abc"));
    assert_eq!(id.name_bytes(), b"abc".to_vec());
}

#[test]
fn precedence_mul_over_add() {
    let mut parser = Parser::new("1+2*3");
    let result = parser.parse_expression();

    let expected = Expression::Binary(Box::new(BinaryExpression {
        span: Span { start: 0, end: 5 },
        operator: ArithmeticOperator::Add,
        left: Box::new(number_literal(1, 0, 0, 1)),
        right: Box::new(Expression::Binary(Box::new(BinaryExpression {
            span: Span { start: 2, end: 5 },
            operator: ArithmeticOperator::Mul,
            left: Box::new(number_literal(2, 0, 2, 3)),
            right: Box::new(number_literal(3, 0, 4, 5)),
        }))),
    }));

    assert_eq!(result, Ok(expected));
}

#[test]
fn pow_right_associative() {
    let mut parser = Parser::new("2**3**2");
    let result = parser.parse_expression();

    let expected = Expression::Binary(Box::new(BinaryExpression {
        span: Span { start: 0, end: 7 },
        operator: ArithmeticOperator::Pow,
        left: Box::new(number_literal(2, 0, 0, 1)),
        right: Box::new(Expression::Binary(Box::new(BinaryExpression {
            span: Span { start: 3, end: 7 },
            operator: ArithmeticOperator::Pow,
            left: Box::new(number_literal(3, 0, 3, 4)),
            right: Box::new(number_literal(2, 0, 6, 7)),
        }))),
    }));

    assert_eq!(result, Ok(expected));
}

#[test]
fn unary_minus_binds_operand() {
    let mut parser = Parser::new("-5");
    let result = parser.parse_expression();

    let expected = Expression::Unary(Box::new(UnaryExpression {
        span: Span { start: 0, end: 2 },
        operator: UnaryOperator::Neg,
        operand: Box::new(number_literal(5, 0, 1, 2)),
    }));

    assert_eq!(result, Ok(expected));
}

#[test]
fn parenthesized_grouping() {
    let mut parser = Parser::new("(1+2)*3");
    let result = parser.parse_expression();

    let expected = Expression::Binary(Box::new(BinaryExpression {
        span: Span { start: 1, end: 7 },
        operator: ArithmeticOperator::Mul,
        left: Box::new(Expression::Binary(Box::new(BinaryExpression {
            span: Span { start: 1, end: 4 },
            operator: ArithmeticOperator::Add,
            left: Box::new(number_literal(1, 0, 1, 2)),
            right: Box::new(number_literal(2, 0, 3, 4)),
        }))),
        right: Box::new(number_literal(3, 0, 6, 7)),
    }));

    assert_eq!(result, Ok(expected));
}

#[test]
fn identifier_expression() {
    let mut parser = Parser::new("a / b");
    let result = parser.parse_expression();

    let expected = Expression::Binary(Box::new(BinaryExpression {
        span: Span { start: 0, end: 5 },
        operator: ArithmeticOperator::Div,
        left: Box::new(Expression::Identifier(Box::new(Identifier::new(
            Atom::from("a"),
            0,
            1,
        )))),
        right: Box::new(Expression::Identifier(Box::new(Identifier::new(
            Atom::from("b"),
            4,
            5,
        )))),
    }));

    assert_eq!(result, Ok(expected));
}

fn ident(name: &str, start: usize, end: usize) -> Expression {
    Expression::Identifier(Box::new(Identifier::new(Atom::from(name), start, end)))
}

#[test]
fn member_and_call_chain() {
    let mut parser = Parser::new("a.b[c](d)");
    let result = parser.parse_expression();

    let dot_member = Expression::Member(Box::new(MemberExpression {
        span: Span { start: 0, end: 3 },
        object: Box::new(ident("a", 0, 1)),
        property: Box::new(ident("b", 2, 3)),
        computed: false,
    }));
    let index_member = Expression::Member(Box::new(MemberExpression {
        span: Span { start: 0, end: 6 },
        object: Box::new(dot_member),
        property: Box::new(ident("c", 4, 5)),
        computed: true,
    }));
    let expected = Expression::Call(Box::new(CallExpression {
        span: Span { start: 0, end: 9 },
        callee: Box::new(index_member),
        arguments: vec![ident("d", 7, 8)],
    }));

    assert_eq!(result, Ok(expected));
}

#[test]
fn call_without_arguments() {
    let mut parser = Parser::new("f()");
    let result = parser.parse_expression();

    let expected = Expression::Call(Box::new(CallExpression {
        span: Span { start: 0, end: 3 },
        callee: Box::new(ident("f", 0, 1)),
        arguments: vec![],
    }));

    assert_eq!(result, Ok(expected));
}

#[test]
fn call_with_two_arguments() {
    let mut parser = Parser::new("f(1, 2)");
    let result = parser.parse_expression();

    let expected = Expression::Call(Box::new(CallExpression {
        span: Span { start: 0, end: 7 },
        callee: Box::new(ident("f", 0, 1)),
        arguments: vec![number_literal(1, 0, 2, 3), number_literal(2, 0, 5, 6)],
    }));

    assert_eq!(result, Ok(expected));
}

#[test]
fn member_binds_tighter_than_operators() {
    let mut parser = Parser::new("a.b * 2");
    let result = parser.parse_expression();

    let expected = Expression::Binary(Box::new(BinaryExpression {
        span: Span { start: 0, end: 7 },
        operator: ArithmeticOperator::Mul,
        left: Box::new(Expression::Member(Box::new(MemberExpression {
            span: Span { start: 0, end: 3 },
            object: Box::new(ident("a", 0, 1)),
            property: Box::new(ident("b", 2, 3)),
            computed: false,
        }))),
        right: Box::new(number_literal(2, 0, 6, 7)),
    }));

    assert_eq!(result, Ok(expected));
}

#[test]
fn array_literal_fails_closed() {
    let mut parser = Parser::new("[1]");
    let result = parser.parse_expression();
    match result {
        Err(ParserError::Unsupported(t)) => {
            assert_eq!(t.kind, Kind::OpenBracket);
            assert_eq!(t.span, Span { start: 0, end: 1 });
        }
        other => panic!("expected an unsupported-construct error, got {:?}", other),
    }
}

#[test]
fn identifier_into_expression() {
    let expr = Expression::from(Identifier::new(Atom::from("x"), 0, 1));
    assert_eq!(expr, ident("x", 0, 1));
}
