use hule::ast::{HuleExpression, HuleParameter, HuleStatement, Operator};
use hule::parser::{AstParser, AstParserError, HuleExpressionResultExt};
use hule::tokens::TokenType;

fn position(parser: &AstParser) -> usize {
    parser.tokens().get_current_token_index()
}

fn identifier(name: &str) -> HuleExpression {
    HuleExpression::Identifier(name.to_string())
}

#[test]
fn new_parser_stands_before_the_first_token() {
    let parser = AstParser::new("int x;");
    assert_eq!(parser.tokens().get_token_count(), 3);
    assert_eq!(position(&parser), usize::MAX);
}

#[test]
fn expect_token_type_reads_a_token_of_the_kind() {
    let mut parser = AstParser::new("int ;");
    let token = parser.expect_token_type(TokenType::Identifier).unwrap();
    assert_eq!(token.value, "int");
    assert_eq!(position(&parser), 0);
    assert_eq!(
        parser.expect_token_type(TokenType::Identifier).map(|t| t.value),
        Err(AstParserError::TokenExpected("Identifier".to_string(), ";".to_string()))
    );
    assert_eq!(position(&parser), 0);
    assert_eq!(parser.expect_token_type(TokenType::Semicolon).map(|t| t.value), Ok(";".to_string()));
    assert_eq!(position(&parser), 1);
    assert_eq!(
        parser.expect_token_type(TokenType::Semicolon).map(|t| t.value),
        Err(AstParserError::UnexpectedEof)
    );
    assert_eq!(position(&parser), 1);
}

#[test]
fn expect_some_token_reads_a_token_of_one_of_the_kinds() {
    let mut parser = AstParser::new("x = 1");
    let kinds = vec![TokenType::Semicolon, TokenType::Assign];
    assert_eq!(
        parser.expect_some_token(kinds.clone()).map(|t| t.value),
        Err(AstParserError::SomeTokenExpected(
            vec!["Semicolon".to_string(), "Assign".to_string()],
            "x".to_string()
        ))
    );
    assert_eq!(position(&parser), usize::MAX);
    assert_eq!(
        parser.expect_some_token(vec![TokenType::Identifier]).map(|t| t.value),
        Ok("x".to_string())
    );
    assert_eq!(parser.expect_some_token(kinds.clone()).map(|t| t.value), Ok("=".to_string()));
    assert_eq!(position(&parser), 1);
    assert_eq!(
        parser.expect_some_token(vec![]).map(|t| t.value),
        Err(AstParserError::SomeTokenExpected(vec![], "1".to_string()))
    );
    parser.expect_some_token(vec![TokenType::ConstIntegerExpression]).unwrap();
    assert_eq!(
        parser.expect_some_token(kinds).map(|t| t.value),
        Err(AstParserError::UnexpectedEof)
    );
    assert_eq!(position(&parser), 2);
}

#[test]
fn expect_token_value_reads_a_token_of_the_text() {
    let mut parser = AstParser::new("if x");
    assert_eq!(
        parser.expect_token_value("while".to_string()).map(|t| t.value),
        Err(AstParserError::TokenExpected("while".to_string(), "if".to_string()))
    );
    assert_eq!(position(&parser), usize::MAX);
    assert_eq!(parser.expect_token_value("if".to_string()).map(|t| t.value), Ok("if".to_string()));
    assert_eq!(parser.expect_token_value("x".to_string()).map(|t| t.value), Ok("x".to_string()));
    assert_eq!(
        parser.expect_token_value("x".to_string()).map(|t| t.value),
        Err(AstParserError::UnexpectedEof)
    );
    assert_eq!(position(&parser), 1);
}

#[test]
fn expect_some_token_value_reads_a_token_of_one_of_the_texts() {
    let mut parser = AstParser::new("if x");
    let words = vec!["while".to_string(), "if".to_string()];
    assert_eq!(parser.expect_some_token_value(words.clone()).map(|t| t.value), Ok("if".to_string()));
    assert_eq!(
        parser.expect_some_token_value(words.clone()).map(|t| t.value),
        Err(AstParserError::SomeTokenExpected(words.clone(), "x".to_string()))
    );
    assert_eq!(position(&parser), 0);
    parser.expect_token_value("x".to_string()).unwrap();
    assert_eq!(
        parser.expect_some_token_value(words).map(|t| t.value),
        Err(AstParserError::UnexpectedEof)
    );
}

#[test]
fn simple_expressions() {
    let mut parser = AstParser::new("x \"s\" 12 ;");
    assert_eq!(parser.try_parse_simple_expression(), Ok(identifier("x")));
    assert_eq!(
        parser.try_parse_simple_expression(),
        Ok(HuleExpression::String("\"s\"".to_string()))
    );
    assert_eq!(parser.try_parse_simple_expression(), Ok(HuleExpression::Integer(12)));
    assert_eq!(position(&parser), 2);
    assert_eq!(parser.try_parse_simple_expression(), Err(AstParserError::IncompatibleStatement));
    assert_eq!(position(&parser), 2);
    parser.expect_token_type(TokenType::Semicolon).unwrap();
    assert_eq!(parser.try_parse_simple_expression(), Err(AstParserError::IncompatibleStatement));
    assert_eq!(position(&parser), 3);
}

#[test]
fn binary_operators() {
    let mut parser = AstParser::new("== > < >= <= && || + - / * = x");
    let expected = [
        Operator::Equal,
        Operator::GreaterThan,
        Operator::LowerThan,
        Operator::GreaterEqualThan,
        Operator::LowerEqualThan,
        Operator::And,
        Operator::Or,
        Operator::Plus,
        Operator::Minus,
        Operator::Divide,
        Operator::Multiply,
    ];
    for operator in expected {
        assert_eq!(parser.try_parse_binary_operator(), Ok(operator));
    }
    assert_eq!(position(&parser), 10);
    assert_eq!(parser.try_parse_binary_operator(), Err(AstParserError::IncompatibleStatement));
    assert_eq!(position(&parser), 10);
    parser.expect_token_type(TokenType::Assign).unwrap();
    parser.expect_token_type(TokenType::Identifier).unwrap();
    assert_eq!(parser.try_parse_binary_operator(), Err(AstParserError::IncompatibleStatement));
    assert_eq!(position(&parser), 12);
}

#[test]
fn binary_expression_continues_a_term() {
    let mut parser = AstParser::new("a + b ;");
    assert_eq!(parser.try_parse_simple_expression(), Ok(identifier("a")));
    assert_eq!(
        parser.try_parse_binary_expression(identifier("a")),
        Ok(HuleExpression::Binary {
            left: Box::new(identifier("a")),
            operator: Operator::Plus,
            right: Box::new(identifier("b")),
        })
    );
    assert_eq!(position(&parser), 2);
    assert_eq!(
        parser.try_parse_binary_expression(identifier("a")),
        Err(AstParserError::IncompatibleStatement)
    );
    assert_eq!(position(&parser), 2);
}

#[test]
fn binary_expression_without_closing_bracket_is_undone() {
    let mut parser = AstParser::new("a + (b ;");
    assert_eq!(parser.try_parse_simple_expression(), Ok(identifier("a")));
    assert_eq!(
        parser.try_parse_binary_expression(identifier("a")),
        Err(AstParserError::TokenExpected("BracketClose".to_string(), ";".to_string()))
    );
    assert_eq!(position(&parser), 0);
    let mut parser = AstParser::new("a + (b ;");
    assert_eq!(parser.try_parse_expression(), Ok(identifier("a")));
    assert_eq!(position(&parser), 0);
}

#[test]
fn expression_needs_a_term() {
    let mut parser = AstParser::new("; x");
    assert_eq!(parser.try_parse_expression(), Err(AstParserError::IncompatibleStatement));
    assert_eq!(position(&parser), usize::MAX);
    let mut parser = AstParser::new("");
    assert_eq!(parser.try_parse_expression(), Err(AstParserError::IncompatibleStatement));
    assert_eq!(position(&parser), usize::MAX);
    let mut parser = AstParser::new("= ;");
    parser.expect_token_type(TokenType::Assign).unwrap();
    assert!(parser.try_parse_expression().is_err());
    assert_eq!(position(&parser), 0);
}

#[test]
fn continuation_without_right_operand_is_left_unread() {
    let mut parser = AstParser::new("x = a + ;");
    parser.expect_token_type(TokenType::Identifier).unwrap();
    parser.expect_token_type(TokenType::Assign).unwrap();
    assert_eq!(parser.try_parse_expression(), Ok(identifier("a")));
    assert_eq!(position(&parser), 2);
    assert_eq!(
        parser.try_parse_binary_expression(identifier("a")),
        Err(AstParserError::IncompatibleStatement)
    );
    assert_eq!(position(&parser), 2);
    let mut parser = AstParser::new("a +");
    assert_eq!(parser.try_parse_expression(), Ok(identifier("a")));
    assert_eq!(position(&parser), 0);
}

#[test]
fn bracket_without_a_term_is_not_an_expression() {
    let mut parser = AstParser::new("()");
    assert_eq!(parser.try_parse_expression(), Err(AstParserError::IncompatibleStatement));
    assert_eq!(position(&parser), usize::MAX);
    let mut parser = AstParser::new("((a))");
    assert_eq!(parser.try_parse_expression(), Err(AstParserError::IncompatibleStatement));
    assert_eq!(position(&parser), usize::MAX);
}

#[test]
fn bracketed_expression_needs_its_closing_bracket() {
    let mut parser = AstParser::new("(a");
    assert_eq!(parser.try_parse_expression(), Err(AstParserError::UnexpectedEof));
    assert_eq!(position(&parser), usize::MAX);
    let mut parser = AstParser::new("(a) + b");
    assert_eq!(
        parser.try_parse_expression(),
        Ok(HuleExpression::Bracketed(Box::new(identifier("a"))))
    );
    assert_eq!(position(&parser), 2);
}

#[test]
fn bracket_expression() {
    let mut parser = AstParser::new("(a * 2) x");
    assert_eq!(
        parser.try_parse_bracket_expression(),
        Ok(HuleExpression::Binary {
            left: Box::new(identifier("a")),
            operator: Operator::Multiply,
            right: Box::new(HuleExpression::Integer(2)),
        })
    );
    assert_eq!(position(&parser), 4);
    assert_eq!(
        parser.try_parse_bracket_expression(),
        Err(AstParserError::IncompatibleStatement)
    );
    assert_eq!(position(&parser), 4);
    let mut parser = AstParser::new("(a ;");
    assert_eq!(
        parser.try_parse_bracket_expression(),
        Err(AstParserError::TokenExpected("BracketClose".to_string(), ";".to_string()))
    );
    assert_eq!(position(&parser), usize::MAX);
    let mut parser = AstParser::new("((a) ;");
    assert_eq!(
        parser.try_parse_bracket_expression(),
        Err(AstParserError::TokenExpected("BracketClose".to_string(), ";".to_string()))
    );
    assert_eq!(position(&parser), usize::MAX);
    let mut parser = AstParser::new("()");
    assert_eq!(
        parser.try_parse_bracket_expression(),
        Err(AstParserError::TokenExpected("expression".to_string(), ")".to_string()))
    );
    assert_eq!(position(&parser), usize::MAX);
    let mut parser = AstParser::new("(");
    assert_eq!(parser.try_parse_bracket_expression(), Err(AstParserError::UnexpectedEof));
    assert_eq!(position(&parser), usize::MAX);
    let mut parser = AstParser::new("((a ;");
    assert_eq!(
        parser.try_parse_bracket_expression(),
        Err(AstParserError::TokenExpected("BracketClose".to_string(), ";".to_string()))
    );
    assert_eq!(position(&parser), usize::MAX);
}

#[test]
fn variable_declaration_errors() {
    let cases = [
        ("", AstParserError::IncompatibleStatement),
        ("5 x;", AstParserError::IncompatibleStatement),
        ("int", AstParserError::UnexpectedEof),
        ("int 5;", AstParserError::TokenExpected("Identifier".to_string(), "5".to_string())),
        ("int x", AstParserError::UnexpectedEof),
        ("int x (", AstParserError::TokenExpected("Assign".to_string(), "(".to_string())),
        ("int x =", AstParserError::UnexpectedEof),
        ("int x = ;", AstParserError::TokenExpected("expression".to_string(), ";".to_string())),
        ("int x = a + ;", AstParserError::TokenExpected("Semicolon".to_string(), "+".to_string())),
        ("int x = 5 6;", AstParserError::TokenExpected("Semicolon".to_string(), "6".to_string())),
        (
            "int x = (5;",
            AstParserError::TokenExpected("BracketClose".to_string(), ";".to_string()),
        ),
    ];
    for (source, error) in cases {
        let mut parser = AstParser::new(source);
        assert_eq!(parser.try_parse_var_decl(), Err(error), "{}", source);
        assert_eq!(position(&parser), usize::MAX, "{}", source);
    }
}

#[test]
fn local_body_reads_declarations() {
    let mut parser = AstParser::new("int a; int b = a; }");
    let body = parser.try_parse_local_body().unwrap();
    assert_eq!(body.len(), 2);
    assert_eq!(position(&parser), 7);
    assert_eq!(parser.try_parse_local_body(), Ok(vec![]));
    assert_eq!(position(&parser), 7);
    let mut parser = AstParser::new("int a; int b }");
    assert_eq!(
        parser.try_parse_local_body(),
        Err(AstParserError::TokenExpected("Assign".to_string(), "}".to_string()))
    );
    assert_eq!(position(&parser), usize::MAX);
}

#[test]
fn parameters_stop_before_the_closing_bracket() {
    let mut parser = AstParser::new("int a, string b) {");
    assert_eq!(
        parser.try_parse_func_params(),
        Ok(vec![HuleParameter::new("int", "a"), HuleParameter::new("string", "b")])
    );
    assert_eq!(position(&parser), 4);
    assert_eq!(parser.tokens().get_token(5).map(|t| t.value), Some(")".to_string()));
}

#[test]
fn parameter_errors() {
    let cases = [
        ("", AstParserError::IncompatibleStatement),
        (")", AstParserError::IncompatibleStatement),
        ("int", AstParserError::UnexpectedEof),
        ("int )", AstParserError::TokenExpected("identifier".to_string(), ")".to_string())),
        ("int a", AstParserError::UnexpectedEof),
        ("int a int b)", AstParserError::TokenExpected(", or )".to_string(), "int".to_string())),
        ("int a, )", AstParserError::IncompatibleStatement),
        ("int a, int b", AstParserError::UnexpectedEof),
        ("int a, int 5)", AstParserError::TokenExpected("identifier".to_string(), "5".to_string())),
    ];
    for (source, error) in cases {
        let mut parser = AstParser::new(source);
        assert_eq!(parser.try_parse_func_params(), Err(error), "{}", source);
        assert_eq!(position(&parser), usize::MAX, "{}", source);
    }
}

#[test]
fn function_declaration_errors() {
    let cases = [
        ("", AstParserError::IncompatibleStatement),
        ("int", AstParserError::UnexpectedEof),
        ("int 5", AstParserError::TokenExpected("Identifier".to_string(), "5".to_string())),
        ("int f", AstParserError::UnexpectedEof),
        ("int f;", AstParserError::TokenExpected("BracketOpen".to_string(), ";".to_string())),
        ("int f(", AstParserError::UnexpectedEof),
        ("int f(int a", AstParserError::TokenExpected(")".to_string(), "int".to_string())),
        ("int f(;", AstParserError::TokenExpected(")".to_string(), ";".to_string())),
        ("int f()", AstParserError::UnexpectedEof),
        ("int f();", AstParserError::TokenExpected("{".to_string(), ";".to_string())),
        ("int f() {", AstParserError::UnexpectedEof),
        ("int f() { x", AstParserError::TokenExpected("}".to_string(), "x".to_string())),
        ("int f() { int x; ", AstParserError::UnexpectedEof),
        ("int f() { ; }", AstParserError::TokenExpected("}".to_string(), ";".to_string())),
    ];
    for (source, error) in cases {
        let mut parser = AstParser::new(source);
        assert_eq!(parser.try_parse_function_decl(), Err(error), "{}", source);
        assert_eq!(position(&parser), usize::MAX, "{}", source);
    }
}

#[test]
fn statement_prefers_the_declaration_of_a_variable() {
    let mut parser = AstParser::new("int x; int f() { }");
    assert!(matches!(parser.try_parse_statement(), Ok(HuleStatement::VariableDecl(_))));
    assert_eq!(position(&parser), 2);
    assert!(matches!(parser.try_parse_statement(), Ok(HuleStatement::FunctionDef(_))));
    assert_eq!(position(&parser), 8);
    assert_eq!(parser.try_parse_statement(), Err(AstParserError::IncompatibleStatement));
    assert_eq!(position(&parser), 8);
}

#[test]
fn statement_returns_the_error_of_a_declaration_that_read_its_assign() {
    let mut parser = AstParser::new("int x = (5;");
    assert_eq!(
        parser.try_parse_statement(),
        Err(AstParserError::TokenExpected("BracketClose".to_string(), ";".to_string()))
    );
    assert_eq!(position(&parser), usize::MAX);
    let mut parser = AstParser::new("int x (5;");
    assert_eq!(
        parser.try_parse_statement(),
        Err(AstParserError::TokenExpected(")".to_string(), "5".to_string()))
    );
    assert_eq!(position(&parser), usize::MAX);
}

#[test]
fn or_reset_moves_the_cursor_on_failure_only() {
    let mut parser = AstParser::new("a b c");
    parser.expect_token_type(TokenType::Identifier).unwrap();
    parser.expect_token_type(TokenType::Identifier).unwrap();
    let kept: Result<i32, AstParserError> = Ok(1);
    assert_eq!(kept.or_reset(&mut parser, 0), Ok(1));
    assert_eq!(position(&parser), 1);
    let failed: Result<i32, AstParserError> = Err(AstParserError::UnexpectedEof);
    assert_eq!(failed.or_reset(&mut parser, 0), Err(AstParserError::UnexpectedEof));
    assert_eq!(position(&parser), 0);
    let failed: Result<i32, AstParserError> = Err(AstParserError::EndOfFile);
    assert_eq!(failed.or_reset(&mut parser, usize::MAX), Err(AstParserError::EndOfFile));
    assert_eq!(position(&parser), usize::MAX);
    let failed: Result<i32, AstParserError> = Err(AstParserError::EndOfFile);
    assert_eq!(failed.or_reset(&mut parser, 7), Err(AstParserError::EndOfFile));
    assert_eq!(position(&parser), 3);
}

#[test]
fn parse_replaces_the_tokens_of_the_parser() {
    let mut parser = AstParser::new("int x;");
    assert!(parser.parse("int y; int z;").is_ok());
    assert_eq!(parser.tokens().get_token_count(), 6);
    assert_eq!(parser.tokens().get_token(1).map(|t| t.value), Some("y".to_string()));
}

fn sum_of(operands: usize) -> String {
    let mut source = String::from("int x = a");
    for _ in 1..operands {
        source.push_str(" + a");
    }
    source.push(';');
    source
}

fn operators_in(expression: &HuleExpression) -> usize {
    let mut count = 0;
    let mut current = expression;
    while let HuleExpression::Binary { right, .. } = current {
        count += 1;
        current = right;
    }
    count
}

#[test]
fn expression_nests_up_to_the_maximal_depth() {
    assert_eq!(hule::grammar::MAX_EXPRESSION_DEPTH, 256);
    let source = sum_of(257);
    let mut parser = AstParser::new(&source);
    match parser.try_parse_var_decl() {
        Ok(HuleStatement::VariableDecl(declaration)) => {
            assert_eq!(operators_in(&declaration.value.unwrap()), 256);
        }
        other => panic!("{:?}", other),
    }
    assert_eq!(position(&parser) + 1, parser.tokens().get_token_count());
}

#[test]
fn expression_does_not_nest_deeper_than_the_maximal_depth() {
    let source = sum_of(258);
    let mut parser = AstParser::new(&source);
    assert_eq!(
        parser.try_parse_var_decl(),
        Err(AstParserError::TokenExpected("Semicolon".to_string(), "+".to_string()))
    );
    assert_eq!(position(&parser), usize::MAX);
    let mut parser = AstParser::new(&source[8..]);
    let expression = parser.try_parse_expression().unwrap();
    assert_eq!(operators_in(&expression), 256);
    assert_eq!(position(&parser), 512);
    let mut parser = AstParser::new(&sum_of(100_000));
    assert!(parser.try_parse_var_decl().is_err());
}
