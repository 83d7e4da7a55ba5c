//! The parser: recursive descent over the token stream, with backtracking.

use vstd::prelude::*;
use crate::ast::{
    parameter_views, statement_views, string_views, ExpressionView, HuleBody, HuleExpression,
    HuleFuncDef, HuleParameter, HuleProgramAst, HuleStatement, HuleVariableDecl, Operator,
    ParameterView, StatementView,
};
use crate::grammar::{
    binary_expression, binary_operator, bracket_expression, demand, expect_kind, expect_lexeme,
    expect_some_kind, expect_some_lexeme, expression, function_declaration, is_retryable,
    lemma_expression_position, lemma_local_body_position, lemma_parameters_position,
    lemma_statement_position, lemma_variable_declaration_position, local_body, message_of,
    names_of, parameters, parse_result, program, reads_assign, required, simple_expression,
    statement,
    variable_declaration, ErrorView, MAX_EXPRESSION_DEPTH,
};
use crate::lexical::tokens_of;
use crate::tokenizer::{index_of, position_of, Tokenized, Tokenizer};
use crate::tokens::{parse_integer, Token, TokenType};
use crate::text::chars_of;

verus! {

/// Why a production was not recognized.
#[derive(Debug, PartialEq)]
pub enum AstParserError {
    /// The source ended where a statement could have started.
    EndOfFile,
    /// The source ended where a token was required.
    UnexpectedEof,
    /// A token of the first description was required, and the second was found.
    TokenExpected(String, String),
    /// One of the first tokens was required, and the second was found.
    SomeTokenExpected(Vec<String>, String),
    /// A statement was required.
    StatementExpected(String),
    /// The production does not apply at the cursor.
    IncompatibleStatement,
}

impl View for AstParserError {
    type V = ErrorView;

    open spec fn view(&self) -> ErrorView {
        match self {
            AstParserError::EndOfFile => ErrorView::EndOfFile,
            AstParserError::UnexpectedEof => ErrorView::UnexpectedEof,
            AstParserError::TokenExpected(expected, given) => ErrorView::TokenExpected(
                expected@,
                given@,
            ),
            AstParserError::SomeTokenExpected(expected, given) => ErrorView::SomeTokenExpected(
                string_views(expected@),
                given@,
            ),
            AstParserError::StatementExpected(context) => ErrorView::StatementExpected(context@),
            AstParserError::IncompatibleStatement => ErrorView::IncompatibleStatement,
        }
    }
}

impl AstParserError {
    /// The text of the error.
    pub fn to_message(&self) -> (text: String)
        ensures
            text@ == message_of(self@),
    {
        match self {
            AstParserError::EndOfFile => "EndOfFile".to_string(),
            AstParserError::UnexpectedEof => "UnexpectedEof".to_string(),
            AstParserError::TokenExpected(expected, given) => {
                let mut text = "Token '".to_string();
                text.append(expected.as_str());
                text.append("' expected but '");
                text.append(given.as_str());
                text.append("' given.");
                text
            },
            AstParserError::SomeTokenExpected(_, _) => "SomeTokenExpected".to_string(),
            AstParserError::StatementExpected(_) => "StatementExpected".to_string(),
            AstParserError::IncompatibleStatement => "IncompatibleStatement".to_string(),
        }
    }

    /// Whether the error only says that a production does not apply.
    pub fn is_retryable(&self) -> (retryable: bool)
        ensures
            retryable == is_retryable(self@),
    {
        match self {
            AstParserError::IncompatibleStatement => true,
            AstParserError::EndOfFile => true,
            _ => false,
        }
    }
}

/// The model of a token or an error.
pub open spec fn token_outcome(result: Result<Token, AstParserError>) -> Result<
    Seq<char>,
    ErrorView,
> {
    match result {
        Ok(token) => Ok(token@),
        Err(error) => Err(error@),
    }
}

/// The model of an operator or an error.
pub open spec fn operator_outcome(result: Result<Operator, AstParserError>) -> Result<
    Operator,
    ErrorView,
> {
    match result {
        Ok(operator) => Ok(operator),
        Err(error) => Err(error@),
    }
}

/// The model of an expression or an error.
pub open spec fn expression_outcome(result: Result<HuleExpression, AstParserError>) -> Result<
    ExpressionView,
    ErrorView,
> {
    match result {
        Ok(value) => Ok(value@),
        Err(error) => Err(error@),
    }
}

/// The model of a statement or an error.
pub open spec fn statement_outcome(result: Result<HuleStatement, AstParserError>) -> Result<
    StatementView,
    ErrorView,
> {
    match result {
        Ok(value) => Ok(value@),
        Err(error) => Err(error@),
    }
}

/// The model of a list of statements or an error.
pub open spec fn statements_outcome(result: Result<Vec<HuleStatement>, AstParserError>) -> Result<
    Seq<StatementView>,
    ErrorView,
> {
    match result {
        Ok(list) => Ok(statement_views(list@)),
        Err(error) => Err(error@),
    }
}

/// The model of a list of parameters or an error.
pub open spec fn parameters_outcome(result: Result<Vec<HuleParameter>, AstParserError>) -> Result<
    Seq<ParameterView>,
    ErrorView,
> {
    match result {
        Ok(list) => Ok(parameter_views(list@)),
        Err(error) => Err(error@),
    }
}

/// The model of a program or an error.
pub open spec fn program_outcome(result: Result<HuleProgramAst, AstParserError>) -> Result<
    Seq<StatementView>,
    ErrorView,
> {
    match result {
        Ok(tree) => Ok(tree@),
        Err(error) => Err(error@),
    }
}

/// A parser over the tokens of one source text.
pub struct AstParser {
    pub(crate) tokens: Tokenized,
    source: String,
}

impl AstParser {
    /// The token stream.
    pub closed spec fn stream(&self) -> Tokenized {
        self.tokens
    }

    /// The source text.
    pub closed spec fn source(&self) -> Seq<char> {
        self.source@
    }

    /// The lexemes of the tokens.
    pub open spec fn lexemes(&self) -> Seq<Seq<char>> {
        self.stream()@
    }

    /// The cursor position.
    pub open spec fn position(&self) -> int {
        self.stream().position()
    }

    /// Whether the parser holds what `before` held, but for the cursor position.
    pub open spec fn keeps(&self, before: &AstParser) -> bool {
        &&& self.stream().tokens() == before.stream().tokens()
        &&& self.stream().checkpoints() == before.stream().checkpoints()
        &&& self.source() == before.source()
    }

    /// A parser over the tokens of `source`, with the cursor before the first.
    pub fn new(source: &str) -> (parser: AstParser)
        ensures
            parser.lexemes() == tokens_of(source@),
            parser.position() == -1,
            parser.stream().checkpoints() == Seq::<int>::empty(),
            parser.source() == source@,
    {
        let mut tokenizer = Tokenizer::new();
        let tokens = tokenizer.tokenize(source);
        AstParser { tokens, source: source.to_string() }
    }

    /// The token stream.
    pub fn tokens(&self) -> (stream: &Tokenized)
        ensures
            *stream == self.stream(),
    {
        &self.tokens
    }

    /// The next token, which must be of kind `token_type`.
    pub fn expect_token_type(&mut self, token_type: TokenType) -> (result: Result<
        Token,
        AstParserError,
    >)
        ensures
            final(self).keeps(old(self)),
            final(self).position() == expect_kind(
                old(self).lexemes(),
                old(self).position(),
                token_type,
            ).position,
            token_outcome(result) == expect_kind(
                old(self).lexemes(),
                old(self).position(),
                token_type,
            ).outcome,
            result matches Ok(token) ==> token.wf(),
    {
        let token = match self.tokens.peek_next(1) {
            Some(token) => token.clone(),
            None => {
                return Err(AstParserError::UnexpectedEof);
            },
        };
        if token.get_calculated_token_type() != token_type {
            return Err(
                AstParserError::TokenExpected(token_type.to_string(), token.lexeme().clone()),
            );
        }
        self.tokens.next();
        Ok(token)
    }

    /// The next token, which must be of one of the kinds `tokens`.
    pub fn expect_some_token(&mut self, tokens: Vec<TokenType>) -> (result: Result<
        Token,
        AstParserError,
    >)
        ensures
            final(self).keeps(old(self)),
            final(self).position() == expect_some_kind(
                old(self).lexemes(),
                old(self).position(),
                tokens@,
            ).position,
            token_outcome(result) == expect_some_kind(
                old(self).lexemes(),
                old(self).position(),
                tokens@,
            ).outcome,
            result matches Ok(token) ==> token.wf(),
    {
        let token = match self.tokens.peek_next(1) {
            Some(token) => token.clone(),
            None => {
                return Err(AstParserError::UnexpectedEof);
            },
        };
        let kind = token.get_calculated_token_type();
        let mut found = false;
        let mut names: Vec<String> = Vec::new();
        let mut i: usize = 0;
        while i < tokens.len()
            invariant
                i <= tokens.len(),
                found == tokens@.take(i as int).contains(kind),
                string_views(names@) == names_of(tokens@.take(i as int)),
            decreases tokens.len() - i,
        {
            let ghost before = tokens@.take(i as int);
            let ghost after = tokens@.take(i + 1);
            assert(after =~= before.push(tokens@[i as int]));
            if tokens[i] == kind {
                found = true;
            }
            let ghost named = names@;
            names.push(tokens[i].to_string());
            proof {
                assert(names_of(after) =~= names_of(before).push(tokens@[i as int].name()));
                assert(string_views(names@) =~= string_views(named).push(
                    tokens@[i as int].name(),
                ));
                if before.contains(kind) {
                    let j = choose|j: int| 0 <= j < before.len() && before[j] == kind;
                    assert(after[j] == kind);
                }
                if tokens@[i as int] == kind {
                    assert(after[i as int] == kind);
                }
            }
            i += 1;
        }
        assert(tokens@.take(i as int) =~= tokens@);
        if !found {
            return Err(AstParserError::SomeTokenExpected(names, token.lexeme().clone()));
        }
        self.tokens.next();
        Ok(token)
    }

    /// The next token, whose lexeme must be `token_value`.
    pub fn expect_token_value(&mut self, token_value: String) -> (result: Result<
        Token,
        AstParserError,
    >)
        ensures
            final(self).keeps(old(self)),
            final(self).position() == expect_lexeme(
                old(self).lexemes(),
                old(self).position(),
                token_value@,
            ).position,
            token_outcome(result) == expect_lexeme(
                old(self).lexemes(),
                old(self).position(),
                token_value@,
            ).outcome,
            result matches Ok(token) ==> token.wf(),
    {
        let token = match self.tokens.peek_next(1) {
            Some(token) => token.clone(),
            None => {
                return Err(AstParserError::UnexpectedEof);
            },
        };
        if *token.lexeme() != token_value {
            return Err(AstParserError::TokenExpected(token_value, token.lexeme().clone()));
        }
        self.tokens.next();
        Ok(token)
    }

    /// The next token, whose lexeme must be one of `token_values`.
    pub fn expect_some_token_value(&mut self, token_values: Vec<String>) -> (result: Result<
        Token,
        AstParserError,
    >)
        ensures
            final(self).keeps(old(self)),
            final(self).position() == expect_some_lexeme(
                old(self).lexemes(),
                old(self).position(),
                string_views(token_values@),
            ).position,
            token_outcome(result) == expect_some_lexeme(
                old(self).lexemes(),
                old(self).position(),
                string_views(token_values@),
            ).outcome,
            result matches Ok(token) ==> token.wf(),
    {
        let token = match self.tokens.peek_next(1) {
            Some(token) => token.clone(),
            None => {
                return Err(AstParserError::UnexpectedEof);
            },
        };
        let ghost expected = string_views(token_values@);
        let mut found = false;
        let mut i: usize = 0;
        while i < token_values.len()
            invariant
                i <= token_values.len(),
                expected == string_views(token_values@),
                found == expected.take(i as int).contains(token@),
            decreases token_values.len() - i,
        {
            let ghost before = expected.take(i as int);
            let ghost after = expected.take(i + 1);
            assert(after =~= before.push(token_values@[i as int]@));
            if token_values[i] == *token.lexeme() {
                found = true;
            }
            proof {
                if before.contains(token@) {
                    let j = choose|j: int| 0 <= j < before.len() && before[j] == token@;
                    assert(after[j] == token@);
                }
                if token_values@[i as int]@ == token@ {
                    assert(after[i as int] == token@);
                }
            }
            i += 1;
        }
        assert(expected.take(i as int) =~= expected);
        if !found {
            return Err(AstParserError::SomeTokenExpected(token_values, token.lexeme().clone()));
        }
        self.tokens.next();
        Ok(token)
    }

    /// A primary term: an identifier, a quoted string or an integer.
    pub fn try_parse_simple_expression(&mut self) -> (result: Result<
        HuleExpression,
        AstParserError,
    >)
        ensures
            final(self).keeps(old(self)),
            final(self).position() == simple_expression(
                old(self).lexemes(),
                old(self).position(),
            ).position,
            expression_outcome(result) == simple_expression(
                old(self).lexemes(),
                old(self).position(),
            ).outcome,
    {
        let token = match self.tokens.peek_next(1) {
            Some(token) => token,
            None => {
                return Err(AstParserError::IncompatibleStatement);
            },
        };
        let value = match token.get_calculated_token_type() {
            TokenType::Identifier => HuleExpression::Identifier(token.lexeme().clone()),
            TokenType::ConstStringExpression => HuleExpression::String(token.lexeme().clone()),
            TokenType::ConstIntegerExpression => {
                let digits = chars_of(token.lexeme().as_str());
                match parse_integer(&digits) {
                    Some(number) => HuleExpression::Integer(number),
                    None => {
                        return Err(AstParserError::IncompatibleStatement);
                    },
                }
            },
            _ => {
                return Err(AstParserError::IncompatibleStatement);
            },
        };
        self.tokens.next();
        Ok(value)
    }

    /// A binary operator.
    pub fn try_parse_binary_operator(&mut self) -> (result: Result<Operator, AstParserError>)
        ensures
            final(self).keeps(old(self)),
            final(self).position() == binary_operator(
                old(self).lexemes(),
                old(self).position(),
            ).position,
            operator_outcome(result) == binary_operator(
                old(self).lexemes(),
                old(self).position(),
            ).outcome,
    {
        let token = match self.tokens.peek_next(1) {
            Some(token) => token,
            None => {
                return Err(AstParserError::IncompatibleStatement);
            },
        };
        let operator = match token.get_calculated_token_type() {
            TokenType::Equal => Operator::Equal,
            TokenType::NotEqual => Operator::NotEqual,
            TokenType::GreaterThan => Operator::GreaterThan,
            TokenType::LowerThan => Operator::LowerThan,
            TokenType::GreaterEqualThan => Operator::GreaterEqualThan,
            TokenType::LowerEqualThan => Operator::LowerEqualThan,
            TokenType::And => Operator::And,
            TokenType::Or => Operator::Or,
            TokenType::Plus => Operator::Plus,
            TokenType::Minus => Operator::Minus,
            TokenType::Divide => Operator::Divide,
            TokenType::Multiply => Operator::Multiply,
            _ => {
                return Err(AstParserError::IncompatibleStatement);
            },
        };
        self.tokens.next();
        Ok(operator)
    }

    /// The continuation of the primary term `left_side` as a binary
    /// expression: an operator, then an expression as the right operand.
    pub fn try_parse_binary_expression(&mut self, left_side: HuleExpression) -> (result: Result<
        HuleExpression,
        AstParserError,
    >)
        ensures
            final(self).keeps(old(self)),
            final(self).position() == binary_expression(
                old(self).lexemes(),
                old(self).position(),
                left_side@,
                MAX_EXPRESSION_DEPTH as nat,
            ).position,
            expression_outcome(result) == binary_expression(
                old(self).lexemes(),
                old(self).position(),
                left_side@,
                MAX_EXPRESSION_DEPTH as nat,
            ).outcome,
    {
        self.binary_expression_within(left_side, MAX_EXPRESSION_DEPTH)
    }

    /// The continuation of `left_side` as a binary expression that nests at
    /// most `depth` levels deep.
    fn binary_expression_within(&mut self, left_side: HuleExpression, depth: usize) -> (result:
        Result<HuleExpression, AstParserError>)
        ensures
            final(self).keeps(old(self)),
            final(self).position() == binary_expression(
                old(self).lexemes(),
                old(self).position(),
                left_side@,
                depth as nat,
            ).position,
            expression_outcome(result) == binary_expression(
                old(self).lexemes(),
                old(self).position(),
                left_side@,
                depth as nat,
            ).outcome,
        decreases depth, 0int,
    {
        proof {
            use_type_invariant(&self.tokens);
        }
        if depth == 0 {
            return Err(AstParserError::IncompatibleStatement);
        }
        let current_index = self.tokens.get_current_token_index();
        let operator = match self.try_parse_binary_operator() {
            Ok(operator) => operator,
            Err(error) => {
                return Err(error);
            },
        };
        let right_side = match self.expression_within(depth - 1).or_reset(self, current_index) {
            Ok(operand) => operand,
            Err(error) => {
                return Err(error);
            },
        };
        Ok(
            HuleExpression::Binary {
                left: Box::new(left_side),
                operator,
                right: Box::new(right_side),
            },
        )
    }

    /// An expression: an optional opening bracket, a primary term with its
    /// continuation as a binary expression, and the closing bracket that an
    /// opening one requires.
    pub fn try_parse_expression(&mut self) -> (result: Result<HuleExpression, AstParserError>)
        ensures
            final(self).keeps(old(self)),
            final(self).position() == expression(
                old(self).lexemes(),
                old(self).position(),
                MAX_EXPRESSION_DEPTH as nat,
            ).position,
            expression_outcome(result) == expression(
                old(self).lexemes(),
                old(self).position(),
                MAX_EXPRESSION_DEPTH as nat,
            ).outcome,
    {
        self.expression_within(MAX_EXPRESSION_DEPTH)
    }

    /// An expression that nests at most `depth` levels deep.
    fn expression_within(&mut self, depth: usize) -> (result: Result<
        HuleExpression,
        AstParserError,
    >)
        ensures
            final(self).keeps(old(self)),
            final(self).position() == expression(
                old(self).lexemes(),
                old(self).position(),
                depth as nat,
            ).position,
            expression_outcome(result) == expression(
                old(self).lexemes(),
                old(self).position(),
                depth as nat,
            ).outcome,
        decreases depth, 1int,
    {
        proof {
            use_type_invariant(&self.tokens);
        }
        let start_index = self.tokens.get_current_token_index();
        let bracketed = self.expect_token_type(TokenType::BracketOpen).is_ok();
        let term = match self.try_parse_simple_expression() {
            Ok(term) => term,
            Err(error) => {
                if bracketed {
                    self.tokens.set_current_token_index(start_index);
                }
                return Err(error);
            },
        };
        let result = match self.binary_expression_within(term.clone(), depth) {
            Ok(binary) => binary,
            Err(_) => term,
        };
        if bracketed {
            match self.expect_token_type(TokenType::BracketClose).or_reset(self, start_index) {
                Ok(_) => Ok(HuleExpression::Bracketed(Box::new(result))),
                Err(error) => Err(error),
            }
        } else {
            Ok(result)
        }
    }

    /// An expression between brackets.
    pub fn try_parse_bracket_expression(&mut self) -> (result: Result<
        HuleExpression,
        AstParserError,
    >)
        ensures
            final(self).keeps(old(self)),
            final(self).position() == bracket_expression(
                old(self).lexemes(),
                old(self).position(),
            ).position,
            expression_outcome(result) == bracket_expression(
                old(self).lexemes(),
                old(self).position(),
            ).outcome,
    {
        proof {
            use_type_invariant(&self.tokens);
        }
        let start_index = self.tokens.get_current_token_index();
        if self.expect_token_type(TokenType::BracketOpen).is_err() {
            return Err(AstParserError::IncompatibleStatement);
        }
        let result = match self.try_parse_expression() {
            Ok(value) => value,
            Err(error) => {
                let error = self.required(error, "expression");
                self.tokens.set_current_token_index(start_index);
                return Err(error);
            },
        };
        match self.expect_token_type(TokenType::BracketClose).or_reset(self, start_index) {
            Ok(_) => Ok(result),
            Err(error) => Err(error),
        }
    }

    /// The declaration of a variable: the name of a type, the name of the
    /// variable, and then a semicolon, or `=`, an expression and a semicolon.
    pub fn try_parse_var_decl(&mut self) -> (result: Result<HuleStatement, AstParserError>)
        ensures
            final(self).keeps(old(self)),
            final(self).position() == variable_declaration(
                old(self).lexemes(),
                old(self).position(),
            ).position,
            statement_outcome(result) == variable_declaration(
                old(self).lexemes(),
                old(self).position(),
            ).outcome,
            result is Err ==> final(self).position() == old(self).position(),
    {
        proof {
            use_type_invariant(&self.tokens);
            lemma_expression_position(
                self.lexemes(),
                self.position() + 3,
                MAX_EXPRESSION_DEPTH as nat,
            );
        }
        let start_index = self.tokens.get_current_token_index();
        let var_type = match self.expect_token_type(TokenType::Identifier) {
            Ok(token) => token,
            Err(_) => {
                return Err(AstParserError::IncompatibleStatement);
            },
        };
        let var_name = match self.expect_token_type(TokenType::Identifier).or_reset(
            self,
            start_index,
        ) {
            Ok(token) => token,
            Err(error) => {
                return Err(error);
            },
        };
        let mut var_value: Option<HuleExpression> = None;
        if self.expect_token_type(TokenType::Semicolon).is_err() {
            match self.expect_token_type(TokenType::Assign).or_reset(self, start_index) {
                Ok(_) => {},
                Err(error) => {
                    return Err(error);
                },
            }
            match self.try_parse_expression() {
                Ok(value) => {
                    var_value = Some(value);
                },
                Err(error) => {
                    let error = self.required(error, "expression");
                    self.tokens.set_current_token_index(start_index);
                    return Err(error);
                },
            }
            match self.expect_token_type(TokenType::Semicolon).or_reset(self, start_index) {
                Ok(_) => {},
                Err(error) => {
                    return Err(error);
                },
            }
        }
        Ok(
            HuleStatement::VariableDecl(
                HuleVariableDecl {
                    data_type: var_type.lexeme().clone(),
                    name: var_name.lexeme().clone(),
                    value: var_value,
                },
            ),
        )
    }

    /// The statements of a function body: declarations of variables, up to
    /// the first place where none starts.
    pub fn try_parse_local_body(&mut self) -> (result: Result<Vec<HuleStatement>, AstParserError>)
        ensures
            final(self).keeps(old(self)),
            final(self).position() == local_body(
                old(self).lexemes(),
                old(self).position(),
            ).position,
            statements_outcome(result) == local_body(
                old(self).lexemes(),
                old(self).position(),
            ).outcome,
            result is Err ==> final(self).position() == old(self).position(),
    {
        proof {
            use_type_invariant(&self.tokens);
        }
        let start_index = self.tokens.get_current_token_index();
        let ghost lexemes = self.lexemes();
        let ghost start = self.position();
        let mut result: Vec<HuleStatement> = Vec::new();
        assert(statement_views(result@) =~= Seq::<StatementView>::empty());
        loop
            invariant
                self.keeps(old(self)),
                lexemes == old(self).lexemes(),
                start == old(self).position(),
                start_index == index_of(start),
                -1 <= start <= self.position() <= lexemes.len() <= usize::MAX,
                local_body(lexemes, start).outcome == (match local_body(
                    lexemes,
                    self.position(),
                ).outcome {
                    Ok(rest) => Ok::<Seq<StatementView>, ErrorView>(
                        statement_views(result@) + rest,
                    ),
                    Err(error) => Err(error),
                }),
                local_body(lexemes, start).position == (if local_body(
                    lexemes,
                    self.position(),
                ).outcome is Ok {
                    local_body(lexemes, self.position()).position
                } else {
                    start
                }),
            decreases lexemes.len() - self.position(),
        {
            let ghost here = self.position();
            let ghost listed = statement_views(result@);
            proof {
                lemma_variable_declaration_position(lexemes, here);
            }
            match self.try_parse_var_decl() {
                Ok(statement) => {
                    result.push(statement);
                    proof {
                        let next = self.position();
                        assert(statement_views(result@) =~= listed.push(statement@));
                        match local_body(lexemes, next).outcome {
                            Ok(rest) => {
                                assert(listed + (seq![statement@] + rest) =~= listed.push(
                                    statement@,
                                ) + rest);
                            },
                            Err(_) => {},
                        }
                    }
                },
                Err(error) => {
                    if let AstParserError::IncompatibleStatement = error {
                        assert(listed + Seq::<StatementView>::empty() =~= listed);
                        return Ok(result);
                    }
                    self.tokens.set_current_token_index(start_index);
                    return Err(error);
                },
            }
        }
    }

    /// The parameters of a function, up to the closing bracket, which is
    /// left for the caller.
    #[verifier::rlimit(30)]
    pub fn try_parse_func_params(&mut self) -> (result: Result<Vec<HuleParameter>, AstParserError>)
        ensures
            final(self).keeps(old(self)),
            final(self).position() == parameters(
                old(self).lexemes(),
                old(self).position(),
            ).position,
            parameters_outcome(result) == parameters(
                old(self).lexemes(),
                old(self).position(),
            ).outcome,
            result is Err ==> final(self).position() == old(self).position(),
    {
        proof {
            use_type_invariant(&self.tokens);
        }
        let ghost lexemes = self.lexemes();
        let ghost start = self.position();
        let ghost saved = self.tokens.checkpoints();
        let mut result: Vec<HuleParameter> = Vec::new();
        let remember_start = self.tokens.remember();
        assert(parameter_views(result@) =~= Seq::<ParameterView>::empty());
        assert(saved.push(start).take(saved.len() as int) =~= saved);
        loop
            invariant
                self.stream().tokens() == old(self).stream().tokens(),
                self.source() == old(self).source(),
                self.stream().checkpoints() == saved.push(start),
                saved == old(self).stream().checkpoints(),
                saved.push(start).take(saved.len() as int) == saved,
                remember_start == saved.len(),
                lexemes == old(self).lexemes(),
                lexemes == self.lexemes(),
                start == old(self).position(),
                -1 <= start <= self.position() <= lexemes.len() <= usize::MAX,
                parameters(lexemes, start).outcome == (match parameters(
                    lexemes,
                    self.position(),
                ).outcome {
                    Ok(rest) => Ok::<Seq<ParameterView>, ErrorView>(
                        parameter_views(result@) + rest,
                    ),
                    Err(error) => Err(error),
                }),
                parameters(lexemes, start).position == (if parameters(
                    lexemes,
                    self.position(),
                ).outcome is Ok {
                    parameters(lexemes, self.position()).position
                } else {
                    start
                }),
            decreases lexemes.len() - self.position(),
        {
            let ghost here = self.position();
            let ghost listed = parameter_views(result@);
            let param_type = match self.tokens.next() {
                Some(token) => token.clone(),
                None => {
                    self.tokens.forget_until(remember_start);
                    return Err(AstParserError::IncompatibleStatement);
                },
            };
            if param_type.get_calculated_token_type() != TokenType::Identifier {
                self.tokens.forget_until(remember_start);
                return Err(AstParserError::IncompatibleStatement);
            }
            let param_name = match self.tokens.next() {
                Some(token) => token.clone(),
                None => {
                    self.tokens.forget_until(remember_start);
                    return Err(AstParserError::UnexpectedEof);
                },
            };
            if param_name.get_calculated_token_type() != TokenType::Identifier {
                self.tokens.forget_until(remember_start);
                return Err(
                    AstParserError::TokenExpected(
                        "identifier".to_string(),
                        param_name.lexeme().clone(),
                    ),
                );
            }
            let general_token = match self.tokens.next() {
                Some(token) => token.clone(),
                None => {
                    self.tokens.forget_until(remember_start);
                    return Err(AstParserError::UnexpectedEof);
                },
            };
            let kind = general_token.get_calculated_token_type();
            if kind == TokenType::Comma || kind == TokenType::BracketClose {
                let parameter = HuleParameter::new(
                    param_type.lexeme().as_str(),
                    param_name.lexeme().as_str(),
                );
                result.push(parameter);
                proof {
                    assert(parameter_views(result@) =~= listed.push(parameter@));
                }
                if kind == TokenType::BracketClose {
                    self.tokens.prev();
                    let reached = self.tokens.get_current_token_index();
                    self.tokens.forget_until(remember_start);
                    self.tokens.set_current_token_index(reached);
                    proof {
                        assert(listed + seq![parameter@] =~= listed.push(parameter@));
                    }
                    return Ok(result);
                }
                proof {
                    match parameters(lexemes, here + 3).outcome {
                        Ok(rest) => {
                            assert(listed + (seq![parameter@] + rest) =~= listed.push(
                                parameter@,
                            ) + rest);
                        },
                        Err(_) => {},
                    }
                }
            } else {
                self.tokens.forget_until(remember_start);
                return Err(
                    AstParserError::TokenExpected(
                        ", or )".to_string(),
                        general_token.lexeme().clone(),
                    ),
                );
            }
        }
    }

    /// The error of a production that is required at the cursor and failed
    /// with `error`.
    fn required(&self, error: AstParserError, description: &str) -> (result: AstParserError)
        ensures
            result@ == required(self.lexemes(), self.position(), error@, description@),
    {
        match error {
            AstParserError::IncompatibleStatement => match self.tokens.peek_next(1) {
                Some(token) => AstParserError::TokenExpected(
                    description.to_string(),
                    token.lexeme().clone(),
                ),
                None => AstParserError::UnexpectedEof,
            },
            other => other,
        }
    }

    /// Whether the declaration of a variable that starts at the cursor gets
    /// as far as its `=`.
    fn reads_assign(&self) -> (reads: bool)
        ensures
            reads == reads_assign(self.lexemes(), self.position()),
    {
        let data_type = match self.tokens.peek_next(1) {
            Some(token) => token.get_calculated_token_type(),
            None => {
                return false;
            },
        };
        let name = match self.tokens.peek_next(2) {
            Some(token) => token.get_calculated_token_type(),
            None => {
                return false;
            },
        };
        let assign = match self.tokens.peek_next(3) {
            Some(token) => token.get_calculated_token_type(),
            None => {
                return false;
            },
        };
        data_type == TokenType::Identifier && name == TokenType::Identifier && assign
            == TokenType::Assign
    }

    /// The next token, which must be of kind `kind`; diagnostics call it
    /// `symbol`.
    fn demand_token(&mut self, kind: TokenType, symbol: &str) -> (result: Result<
        Token,
        AstParserError,
    >)
        ensures
            final(self).keeps(old(self)),
            final(self).position() == demand(
                old(self).lexemes(),
                old(self).position(),
                kind,
                symbol@,
            ).position,
            token_outcome(result) == demand(
                old(self).lexemes(),
                old(self).position(),
                kind,
                symbol@,
            ).outcome,
    {
        let token = match self.tokens.peek_next(1) {
            Some(token) => token.clone(),
            None => {
                return Err(AstParserError::UnexpectedEof);
            },
        };
        if token.get_calculated_token_type() != kind {
            return Err(AstParserError::TokenExpected(symbol.to_string(), token.lexeme().clone()));
        }
        self.tokens.next();
        Ok(token)
    }

    /// The definition of a function: the name of the return type, the name
    /// of the function, the parameters between brackets, and the body
    /// between curly brackets.
    #[verifier::rlimit(30)]
    pub fn try_parse_function_decl(&mut self) -> (result: Result<HuleStatement, AstParserError>)
        ensures
            final(self).keeps(old(self)),
            final(self).position() == function_declaration(
                old(self).lexemes(),
                old(self).position(),
            ).position,
            statement_outcome(result) == function_declaration(
                old(self).lexemes(),
                old(self).position(),
            ).outcome,
            result is Err ==> final(self).position() == old(self).position(),
    {
        proof {
            use_type_invariant(&self.tokens);
        }
        let start_index = self.tokens.get_current_token_index();
        let func_ret_type = match self.expect_token_type(TokenType::Identifier) {
            Ok(token) => token,
            Err(_) => {
                return Err(AstParserError::IncompatibleStatement);
            },
        };
        let func_name = match self.expect_token_type(TokenType::Identifier).or_reset(
            self,
            start_index,
        ) {
            Ok(token) => token,
            Err(error) => {
                return Err(error);
            },
        };
        match self.expect_token_type(TokenType::BracketOpen).or_reset(self, start_index) {
            Ok(_) => {},
            Err(error) => {
                return Err(error);
            },
        }
        let parameters = match self.try_parse_func_params() {
            Ok(list) => list,
            Err(_) => {
                let list: Vec<HuleParameter> = Vec::new();
                assert(parameter_views(list@) =~= Seq::<ParameterView>::empty());
                list
            },
        };
        proof {
            lemma_parameters_position(old(self).lexemes(), old(self).position() + 3);
        }
        match self.demand_token(TokenType::BracketClose, ")").or_reset(self, start_index) {
            Ok(_) => {},
            Err(error) => {
                return Err(error);
            },
        }
        match self.demand_token(TokenType::CurlyBracketOpen, "{").or_reset(self, start_index) {
            Ok(_) => {},
            Err(error) => {
                return Err(error);
            },
        }
        proof {
            lemma_local_body_position(self.lexemes(), self.position());
        }
        let body = match self.try_parse_local_body() {
            Ok(list) => list,
            Err(_) => {
                let list: Vec<HuleStatement> = Vec::new();
                assert(statement_views(list@) =~= Seq::<StatementView>::empty());
                list
            },
        };
        match self.demand_token(TokenType::CurlyBracketClose, "}").or_reset(self, start_index) {
            Ok(_) => {},
            Err(error) => {
                return Err(error);
            },
        }
        let definition = HuleStatement::FunctionDef(
            HuleFuncDef {
                name: func_name.lexeme().clone(),
                parameters,
                return_type: func_ret_type.lexeme().clone(),
                body,
            },
        );
        assert(definition@->FunctionDef_body =~= statement_views(body@));
        Ok(definition)
    }

    /// A top-level statement: the declaration of a variable or the
    /// definition of a function, which is tried where the declaration fails
    /// before its `=`.
    pub fn try_parse_statement(&mut self) -> (result: Result<HuleStatement, AstParserError>)
        ensures
            final(self).keeps(old(self)),
            final(self).position() == statement(old(self).lexemes(), old(self).position()).position,
            statement_outcome(result) == statement(
                old(self).lexemes(),
                old(self).position(),
            ).outcome,
            result is Err ==> final(self).position() == old(self).position(),
            result is Ok ==> old(self).position() < final(self).position() < old(
                self,
            ).lexemes().len(),
    {
        proof {
            lemma_statement_position(self.lexemes(), self.position());
        }
        match self.try_parse_var_decl() {
            Ok(statement) => Ok(statement),
            Err(error) => {
                if self.reads_assign() {
                    Err(error)
                } else {
                    self.try_parse_function_decl()
                }
            },
        }
    }

    /// Parses `source`: the statements of the program, or the error that
    /// stopped the parser.
    #[verifier::rlimit(30)]
    pub fn parse(&mut self, source: &str) -> (result: Result<HuleProgramAst, AstParserError>)
        ensures
            program_outcome(result) == parse_result(source@),
            final(self).lexemes() == tokens_of(source@),
            final(self).source() == source@,
            final(self).stream().checkpoints() == Seq::<int>::empty(),
    {
        self.source = source.to_string();
        let mut tokenizer = Tokenizer::new();
        self.tokens = tokenizer.tokenize(source);
        let ghost lexemes = self.lexemes();
        let mut items: Vec<HuleStatement> = Vec::new();
        assert(statement_views(items@) =~= Seq::<StatementView>::empty());
        loop
            invariant
                lexemes == tokens_of(source@),
                lexemes == self.lexemes(),
                self.source() == source@,
                self.stream().checkpoints() == Seq::<int>::empty(),
                -1 <= self.position() <= lexemes.len(),
                program(lexemes, -1) == (match program(lexemes, self.position()) {
                    Ok(rest) => Ok::<Seq<StatementView>, ErrorView>(
                        statement_views(items@) + rest,
                    ),
                    Err(error) => Err(error),
                }),
            decreases lexemes.len() - self.position(),
        {
            let ghost listed = statement_views(items@);
            match self.try_parse_statement() {
                Ok(statement) => {
                    items.push(statement);
                    proof {
                        assert(statement_views(items@) =~= listed.push(statement@));
                        match program(lexemes, self.position()) {
                            Ok(rest) => {
                                assert(listed + (seq![statement@] + rest) =~= listed.push(
                                    statement@,
                                ) + rest);
                            },
                            Err(_) => {},
                        }
                    }
                },
                Err(error) => {
                    if error.is_retryable() {
                        assert(listed + Seq::<StatementView>::empty() =~= listed);
                        return Ok(HuleProgramAst { body: HuleBody::new(items) });
                    }
                    return Err(error);
                },
            }
        }
    }
}

/// Parsing one source twice gives the same program, or the same error.
pub proof fn lemma_parsing_is_repeatable(
    first: Result<HuleProgramAst, AstParserError>,
    second: Result<HuleProgramAst, AstParserError>,
    source: Seq<char>,
)
    requires
        program_outcome(first) == parse_result(source),
        program_outcome(second) == parse_result(source),
    ensures
        program_outcome(first) == program_outcome(second),
{
}

/// Rewinding on failure, for the results of the parser's productions.
pub trait HuleExpressionResultExt: Sized {
    /// Whether the result is a failure.
    spec fn is_failure(&self) -> bool;

    /// Hands the result on; where it is a failure, first moves the cursor of
    /// `program` to the position that `index` stands for.
    fn or_reset(self, program: &mut AstParser, index: usize) -> (result: Self)
        ensures
            result == self,
            final(program).keeps(old(program)),
            self.is_failure() ==> final(program).position() == position_of(
                index,
                old(program).lexemes().len(),
            ),
            !self.is_failure() ==> final(program).position() == old(program).position(),
    ;
}

impl<T> HuleExpressionResultExt for Result<T, AstParserError> {
    open spec fn is_failure(&self) -> bool {
        self is Err
    }

    fn or_reset(self, program: &mut AstParser, index: usize) -> (result: Self) {
        match &self {
            Ok(_) => {},
            Err(_) => {
                program.tokens.set_current_token_index(index);
            },
        }
        self
    }
}

} // verus!
