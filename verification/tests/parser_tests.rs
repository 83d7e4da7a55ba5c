use hule::ast::{
    HuleBody, HuleExpression, HuleFuncDef, HuleParameter, HuleProgramAst, HuleStatement,
    HuleVariableDecl, Operator,
};
use hule::parser::{AstParser, AstParserError};

fn parse(source: &str) -> Result<HuleProgramAst, AstParserError> {
    let mut parser = AstParser::new(source);
    parser.parse(source)
}

fn declaration(data_type: &str, name: &str, value: Option<HuleExpression>) -> HuleStatement {
    HuleStatement::VariableDecl(HuleVariableDecl {
        data_type: data_type.to_string(),
        name: name.to_string(),
        value,
    })
}

fn program(items: Vec<HuleStatement>) -> HuleProgramAst {
    HuleProgramAst { body: HuleBody::new(items) }
}

fn identifier(name: &str) -> HuleExpression {
    HuleExpression::Identifier(name.to_string())
}

fn binary(left: HuleExpression, operator: Operator, right: HuleExpression) -> HuleExpression {
    HuleExpression::Binary { left: Box::new(left), operator, right: Box::new(right) }
}

#[test]
fn declaration_without_value() {
    assert_eq!(parse("int x;"), Ok(program(vec![declaration("int", "x", None)])));
}

#[test]
fn declaration_with_integer_value() {
    assert_eq!(
        parse("int x = 5;"),
        Ok(program(vec![declaration("int", "x", Some(HuleExpression::Integer(5)))]))
    );
}

#[test]
fn function_with_two_parameters() {
    let expected = HuleStatement::FunctionDef(HuleFuncDef {
        name: "add".to_string(),
        parameters: vec![HuleParameter::new("int", "a"), HuleParameter::new("int", "b")],
        return_type: "int".to_string(),
        body: vec![],
    });
    assert_eq!(parse("int add(int a, int b) { }"), Ok(program(vec![expected])));
}

#[test]
fn missing_comma_between_parameters_is_a_hard_error() {
    assert_eq!(
        parse("int add(int a int b) { }"),
        Err(AstParserError::TokenExpected(")".to_string(), "int".to_string()))
    );
}

#[test]
fn parsing_twice_gives_equal_programs() {
    let source = "int x = a + 1; int f(int a) { int y; }";
    let mut parser = AstParser::new(source);
    let first = parser.parse(source);
    let second = parser.parse(source);
    assert!(first.is_ok());
    assert_eq!(first, second);
    assert_eq!(parse(source), first);
}

#[test]
fn empty_source_is_an_empty_program() {
    assert_eq!(parse(""), Ok(program(vec![])));
    assert_eq!(parse("   \n"), Ok(program(vec![])));
}

#[test]
fn function_without_parameters_and_with_body() {
    let expected = HuleStatement::FunctionDef(HuleFuncDef {
        name: "f".to_string(),
        parameters: vec![],
        return_type: "void".to_string(),
        body: vec![
            declaration("int", "a", None),
            declaration("int", "b", Some(HuleExpression::Integer(2))),
        ],
    });
    assert_eq!(parse("void f() { int a; int b = 2; }"), Ok(program(vec![expected])));
}

#[test]
fn binary_expressions_nest_to_the_right() {
    let expected = binary(
        identifier("a"),
        Operator::Plus,
        binary(identifier("b"), Operator::Multiply, identifier("c")),
    );
    assert_eq!(
        parse("int x = a + b * c;"),
        Ok(program(vec![declaration("int", "x", Some(expected))]))
    );
}

#[test]
fn bracketed_expression() {
    let inner = binary(identifier("a"), Operator::GreaterEqualThan, HuleExpression::Integer(3));
    assert_eq!(
        parse("bool x = (a >= 3);"),
        Ok(program(vec![declaration(
            "bool",
            "x",
            Some(HuleExpression::Bracketed(Box::new(inner)))
        )]))
    );
}

#[test]
fn bracket_as_right_operand() {
    let expected = binary(
        identifier("a"),
        Operator::Minus,
        HuleExpression::Bracketed(Box::new(binary(
            identifier("b"),
            Operator::Divide,
            identifier("c"),
        ))),
    );
    assert_eq!(
        parse("int x = a - (b / c);"),
        Ok(program(vec![declaration("int", "x", Some(expected))]))
    );
}

#[test]
fn string_literal_keeps_its_quotes() {
    assert_eq!(
        parse("string s = \"hi there\";"),
        Ok(program(vec![declaration(
            "string",
            "s",
            Some(HuleExpression::String("\"hi there\"".to_string()))
        )]))
    );
}

#[test]
fn missing_closing_bracket_is_a_hard_error() {
    assert_eq!(
        parse("int x = (a + b;"),
        Err(AstParserError::TokenExpected("BracketClose".to_string(), ";".to_string()))
    );
    assert_eq!(
        parse("int x = (5;"),
        Err(AstParserError::TokenExpected("BracketClose".to_string(), ";".to_string()))
    );
    assert_eq!(parse("int y; int x = (5"), Err(AstParserError::UnexpectedEof));
}

#[test]
fn missing_initializer_is_a_hard_error() {
    assert_eq!(
        parse("int x = ;"),
        Err(AstParserError::TokenExpected("expression".to_string(), ";".to_string()))
    );
    assert_eq!(parse("int x ="), Err(AstParserError::UnexpectedEof));
    assert_eq!(
        parse("int x = ();"),
        Err(AstParserError::TokenExpected("expression".to_string(), "(".to_string()))
    );
}

#[test]
fn missing_right_operand_leaves_the_operator_unread() {
    assert_eq!(
        parse("int x = a + ;"),
        Err(AstParserError::TokenExpected("Semicolon".to_string(), "+".to_string()))
    );
}

#[test]
fn declaration_without_terminator_leads_to_the_function_alternative() {
    assert_eq!(
        parse("int x 5;"),
        Err(AstParserError::TokenExpected("BracketOpen".to_string(), "5".to_string()))
    );
    assert_eq!(parse("int x"), Err(AstParserError::UnexpectedEof));
    assert_eq!(
        parse("int 5;"),
        Err(AstParserError::TokenExpected("Identifier".to_string(), "5".to_string()))
    );
}

#[test]
fn missing_semicolon_after_value() {
    let mut parser = AstParser::new("int x = 5");
    assert_eq!(parser.try_parse_var_decl(), Err(AstParserError::UnexpectedEof));
    assert_eq!(parser.tokens().get_current_token_index(), usize::MAX);
    assert_eq!(parse("int x = 5"), Err(AstParserError::UnexpectedEof));
    assert_eq!(
        parse("int x = 5 6;"),
        Err(AstParserError::TokenExpected("Semicolon".to_string(), "6".to_string()))
    );
}

#[test]
fn statements_after_the_first() {
    assert_eq!(
        parse("int x; int y = x;"),
        Ok(program(vec![
            declaration("int", "x", None),
            declaration("int", "y", Some(identifier("x"))),
        ]))
    );
}

#[test]
fn parsing_stops_where_no_statement_starts() {
    assert_eq!(parse("int x; ; int y;"), Ok(program(vec![declaration("int", "x", None)])));
    assert_eq!(parse("( int x;"), Ok(program(vec![])));
}

#[test]
fn unfinished_function_is_a_hard_error() {
    assert_eq!(parse("int x; int f("), Err(AstParserError::UnexpectedEof));
    assert_eq!(parse("int f()"), Err(AstParserError::UnexpectedEof));
    assert_eq!(parse("int f() { int x;"), Err(AstParserError::UnexpectedEof));
}

#[test]
fn broken_body_asks_for_the_closing_curly_bracket() {
    assert_eq!(
        parse("int f() { int a; int b }"),
        Err(AstParserError::TokenExpected("}".to_string(), "int".to_string()))
    );
}

#[test]
fn failed_function_declaration_restores_the_cursor() {
    let sources = [
        "int",
        "int add",
        "int add(",
        "int add(int",
        "int add(int a",
        "int add(int a int b) { }",
        "int add(int a, int b) ",
        "int add(int a, int b) { int x; ",
        "int add(int a, int b) { int x }",
        "; int add() { }",
    ];
    for source in sources {
        let mut parser = AstParser::new(source);
        let before = parser.tokens().get_current_token_index();
        let result = parser.try_parse_function_decl();
        assert!(result.is_err());
        assert_eq!(parser.tokens().get_current_token_index(), before);
    }
}

#[test]
fn successful_function_declaration_ends_at_its_last_token() {
    let mut parser = AstParser::new("int add(int a, int b) { } int x;");
    assert!(parser.try_parse_function_decl().is_ok());
    assert_eq!(parser.tokens().get_current_token_index(), 10);
}

#[test]
fn error_messages() {
    assert_eq!(AstParserError::EndOfFile.to_message(), "EndOfFile");
    assert_eq!(AstParserError::UnexpectedEof.to_message(), "UnexpectedEof");
    assert_eq!(
        AstParserError::TokenExpected(")".to_string(), "int".to_string()).to_message(),
        "Token ')' expected but 'int' given."
    );
    assert_eq!(
        AstParserError::SomeTokenExpected(vec![";".to_string()], "x".to_string()).to_message(),
        "SomeTokenExpected"
    );
    assert_eq!(
        AstParserError::StatementExpected("body".to_string()).to_message(),
        "StatementExpected"
    );
    assert_eq!(AstParserError::IncompatibleStatement.to_message(), "IncompatibleStatement");
}

#[test]
fn retryable_errors() {
    assert!(AstParserError::IncompatibleStatement.is_retryable());
    assert!(AstParserError::EndOfFile.is_retryable());
    assert!(!AstParserError::UnexpectedEof.is_retryable());
    assert!(!AstParserError::TokenExpected("a".to_string(), "b".to_string()).is_retryable());
}
